use cozo::data::compare::compare_values;
use cozo::data::key_order::{compare, compare_tuple_keys};
use cozo::data::number::{flip, Order};
use cozo::data::tuple::{EncodedTuple, Tuple};
use cozo::data::text::Text;
use cozo::data::value::DataValue;

struct Rng(u64);

impl Rng {
    fn next(&mut self) -> u64 {
        self.0 = self
            .0
            .wrapping_mul(6364136223846793005)
            .wrapping_add(1442695040888963407);
        self.0 >> 11
    }

    fn below(&mut self, n: u64) -> u64 {
        self.next() % n
    }

    fn value(&mut self, depth: u32) -> DataValue {
        match self.below(if depth == 0 { 9 } else { 10 }) {
            0 => DataValue::Guard,
            1 => DataValue::Bot,
            2 => DataValue::Null,
            3 => DataValue::Bool(self.below(2) == 1),
            4 => DataValue::Int(self.below(7) as i64 - 3),
            5 => DataValue::Int(self.next() as i64 ^ ((self.next() as i64) << 20)),
            6 => {
                let choices = [-2.0, -1.5, -0.0, 0.0, 0.5, 1.0, 2.0, 3.0, f64::INFINITY, 1e-320];
                DataValue::Float(choices[self.below(choices.len() as u64) as usize].to_bits())
            }
            7 => DataValue::Float(self.next() << 11 | self.below(2048)),
            8 => {
                let alphabet = ['a', 'b', 'z', 'é', '\u{0}', '\u{7ff}', '\u{ffff}', '\u{10ffff}'];
                let len = self.below(4);
                let s: String = (0..len)
                    .map(|_| alphabet[self.below(alphabet.len() as u64) as usize])
                    .collect();
                DataValue::Str(Text::new(&s))
            }
            _ => {
                let len = self.below(3);
                DataValue::List((0..len).map(|_| self.value(depth - 1)).collect())
            }
        }
    }

    fn tuple(&mut self) -> Vec<DataValue> {
        let len = self.below(4);
        (0..len).map(|_| self.value(2)).collect()
    }
}

#[test]
fn random_tuples_survive_the_round_trip() {
    let mut rng = Rng(1);
    for _ in 0..2000 {
        let values = rng.tuple();
        let prefix = rng.next() as u32;
        let key = Tuple(values.clone()).encode_as_key(prefix);
        let encoded = EncodedTuple(&key);
        assert_eq!(encoded.prefix(), Ok(prefix));
        assert_eq!(encoded.arity(), Ok(values.len()));
        for (idx, v) in values.iter().enumerate() {
            assert_eq!(encoded.get(idx).as_ref(), Ok(v));
        }
        let mut walked = vec![];
        let mut it = encoded.iter();
        while let Some(item) = it.next() {
            walked.push(item.unwrap());
        }
        assert_eq!(walked, values);
        assert_eq!(encoded.decode(), Ok(Tuple(values)));
    }
}

#[test]
fn random_keys_compare_as_their_tuples() {
    let mut rng = Rng(2);
    let tuples: Vec<Vec<DataValue>> = (0..150).map(|_| rng.tuple()).collect();
    let keys: Vec<Vec<u8>> = tuples
        .iter()
        .map(|t| Tuple(t.clone()).encode_as_key(5))
        .collect();
    for i in 0..tuples.len() {
        for j in 0..tuples.len() {
            let by_key = compare(&keys[i], &keys[j]);
            assert_eq!(by_key, compare_values(&tuples[i], &tuples[j]));
            assert_eq!(compare(&keys[j], &keys[i]), flip(by_key));
            assert_eq!(by_key == Order::Equal, tuples[i] == tuples[j]);
        }
    }
}

#[test]
fn random_keys_sort_into_a_chain() {
    let mut rng = Rng(3);
    let mut keys: Vec<Vec<u8>> = (0..300)
        .map(|_| {
            let prefix = rng.below(3) as u32;
            Tuple(rng.tuple()).encode_as_key(prefix)
        })
        .collect();
    keys.sort_by(|a, b| compare_tuple_keys(a, b));
    for i in 0..keys.len() {
        for j in i..keys.len() {
            assert_ne!(compare(&keys[i], &keys[j]), Order::Greater);
        }
    }
    for pair in keys.windows(2) {
        let (a, b) = (EncodedTuple(&pair[0]), EncodedTuple(&pair[1]));
        assert!(a.prefix().unwrap() <= b.prefix().unwrap());
    }
}

#[test]
fn unchanged_rows_give_the_same_bytes_again() {
    let rows = |seed: u64| -> Vec<Vec<u8>> {
        let mut rng = Rng(seed);
        (0..200).map(|_| Tuple(rng.tuple()).encode_as_key(11)).collect()
    };
    assert_eq!(rows(7), rows(7));
    let first = rows(8);
    let again: Vec<Vec<u8>> = first
        .iter()
        .map(|key| EncodedTuple(key).decode().unwrap().encode_as_key(11))
        .collect();
    assert_eq!(first, again);
}
