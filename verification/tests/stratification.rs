use cozo::query::stratify::{
    dependencies, group_strata, strata, stratify, BodyAtom, Dependency, Rule, StratifyError,
};

fn dep(reader: usize, source: usize, strict: bool) -> Dependency {
    Dependency { reader, source, strict }
}

fn respects(deps: &[Dependency], s: &[usize]) -> bool {
    deps.iter()
        .all(|d| s[d.source] <= s[d.reader] && (!d.strict || s[d.source] < s[d.reader]))
}

#[test]
fn a_program_without_dependencies_has_one_stratum() {
    assert_eq!(stratify(3, &vec![]), Ok(vec![0, 0, 0]));
    assert_eq!(strata(3, &vec![]), Ok(vec![vec![0, 1, 2]]));
    assert_eq!(stratify(0, &vec![]), Ok(vec![]));
    assert_eq!(strata(0, &vec![]), Ok(vec![]));
}

#[test]
fn recursion_shares_a_stratum() {
    // 0 and 1 read each other; 2 reads 1
    let deps = vec![dep(0, 1, false), dep(1, 0, false), dep(2, 1, false), dep(1, 1, false)];
    assert_eq!(stratify(3, &deps), Ok(vec![0, 0, 0]));
}

#[test]
fn negation_comes_strictly_later() {
    // 1 negates 0, 2 aggregates over 1, 3 reads 2, 4 reads nothing
    let deps = vec![dep(3, 2, false), dep(2, 1, true), dep(1, 0, true)];
    let s = stratify(5, &deps).unwrap();
    assert_eq!(s, vec![0, 1, 2, 2, 0]);
    assert!(respects(&deps, &s));
    assert_eq!(
        strata(5, &deps),
        Ok(vec![vec![0, 4], vec![1], vec![2, 3]])
    );
    assert_eq!(group_strata(&s), vec![vec![0, 4], vec![1], vec![2, 3]]);
    // numbers that are no strata of five relations
    assert_eq!(group_strata(&vec![0, 9, 0, 0, 0]), Vec::<Vec<usize>>::new());
}

#[test]
fn the_strata_do_not_depend_on_the_order_of_the_dependencies() {
    let mut deps = vec![
        dep(5, 4, true),
        dep(4, 3, false),
        dep(3, 4, false),
        dep(3, 2, true),
        dep(2, 1, false),
        dep(1, 0, true),
        dep(5, 0, false),
    ];
    let expected = vec![0, 1, 1, 2, 2, 3];
    assert_eq!(stratify(6, &deps), Ok(expected.clone()));
    deps.reverse();
    assert_eq!(stratify(6, &deps), Ok(expected.clone()));
    deps.rotate_left(3);
    assert_eq!(stratify(6, &deps), Ok(expected.clone()));
    assert!(respects(&deps, &expected));
}

#[test]
fn negation_in_a_cycle_cannot_be_stratified() {
    assert_eq!(stratify(1, &vec![dep(0, 0, true)]), Err(StratifyError::Unstratifiable));
    let deps = vec![dep(0, 1, false), dep(1, 2, false), dep(2, 0, true)];
    assert_eq!(stratify(3, &deps), Err(StratifyError::Unstratifiable));
    assert_eq!(strata(3, &deps), Err(StratifyError::Unstratifiable));
    // the same cycle without the negation is fine
    let deps = vec![dep(0, 1, false), dep(1, 2, false), dep(2, 0, false)];
    assert_eq!(stratify(3, &deps), Ok(vec![0, 0, 0]));
}

#[test]
fn a_chain_of_negations_uses_every_stratum() {
    let n = 40;
    let deps: Vec<Dependency> = (1..n).map(|i| dep(i, i - 1, true)).collect();
    let s = stratify(n, &deps).unwrap();
    assert_eq!(s, (0..n).collect::<Vec<usize>>());
    let mut reversed = deps.clone();
    reversed.reverse();
    assert_eq!(stratify(n, &reversed), Ok(s));
}

#[test]
fn unknown_relations_are_reported() {
    let deps = vec![dep(0, 1, false), dep(2, 0, false), dep(0, 9, true)];
    assert_eq!(stratify(2, &deps), Err(StratifyError::UnknownRelation(1)));
    assert_eq!(stratify(3, &deps), Err(StratifyError::UnknownRelation(2)));
    assert_eq!(strata(3, &deps), Err(StratifyError::UnknownRelation(2)));
    assert_eq!(stratify(0, &deps), Err(StratifyError::UnknownRelation(0)));
}

#[test]
fn dependencies_are_read_off_the_rules() {
    let rules = vec![
        Rule {
            head: 2,
            aggregates: false,
            body: vec![
                BodyAtom { relation: 0, negated: false },
                BodyAtom { relation: 1, negated: true },
            ],
        },
        Rule { head: 1, aggregates: false, body: vec![] },
        Rule {
            head: 3,
            aggregates: true,
            body: vec![BodyAtom { relation: 2, negated: false }],
        },
    ];
    let deps = dependencies(&rules);
    assert_eq!(deps, vec![dep(2, 0, false), dep(2, 1, true), dep(3, 2, true)]);
    assert_eq!(stratify(4, &deps), Ok(vec![0, 0, 1, 2]));
    assert_eq!(dependencies(&vec![]), vec![]);
}
