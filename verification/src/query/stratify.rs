//! Stratification: the order in which the relations of a program are
//! computed.
//!
//! A relation that reads another one must not be computed before it. Where
//! it reads the other through a negation or an aggregation, it needs the
//! other one complete, and so must be computed strictly after it. Relations
//! that depend on each other, none of them strictly, share a stratum and are
//! computed together. A program in which a relation depends strictly on
//! itself, directly or through others, cannot be stratified.

use vstd::prelude::*;
use vstd::seq_lib::seq_to_set_is_finite;
use vstd::set_lib::lemma_len_subset;

verus! {

/// One dependency between the relations of a program, which are numbered
/// from 0: the relation `reader` is defined by a rule that reads `source`.
#[derive(Clone, Copy, Debug, PartialEq, Eq, Structural)]
pub struct Dependency {
    pub reader: usize,
    pub source: usize,
    /// Whether the source is read through a negation or an aggregation.
    pub strict: bool,
}

/// One relation that the body of a rule reads.
#[derive(Clone, Copy, Debug, PartialEq, Eq, Structural)]
pub struct BodyAtom {
    pub relation: usize,
    /// Whether the rule asks for the absence of a row.
    pub negated: bool,
}

/// One rule of a program: the relation that it defines, and what it reads.
#[derive(Clone, Debug, PartialEq, Eq)]
pub struct Rule {
    pub head: usize,
    /// Whether the head aggregates over the rows that the body yields.
    pub aggregates: bool,
    pub body: Vec<BodyAtom>,
}

/// Why a program has no stratification.
#[derive(Clone, Copy, Debug, PartialEq, Eq, Structural)]
pub enum StratifyError {
    /// The dependency at this place names a relation that the program does
    /// not have.
    UnknownRelation(usize),
    /// A relation depends strictly on itself, directly or through others.
    Unstratifiable,
}

/// Whether the dependency names relations among the first `n`.
pub open spec fn in_range(n: nat, d: Dependency) -> bool {
    d.reader < n && d.source < n
}

/// Whether the strata `v` put the source of `d` no later than its reader,
/// and earlier if the dependency is strict.
pub open spec fn respects(d: Dependency, v: Seq<nat>) -> bool {
    &&& v[d.source as int] <= v[d.reader as int]
    &&& d.strict ==> v[d.source as int] < v[d.reader as int]
}

/// Whether `v` gives each of `n` relations a stratum such that every
/// dependency is respected.
pub open spec fn is_stratification(n: nat, deps: Seq<Dependency>, v: Seq<nat>) -> bool {
    &&& v.len() == n
    &&& forall|k: int| 0 <= k < deps.len() ==> respects(#[trigger] deps[k], v)
}

/// Whether `s` puts no relation later than any stratification does.
pub open spec fn is_earliest(n: nat, deps: Seq<Dependency>, s: Seq<nat>) -> bool {
    forall|v: Seq<nat>, i: int|
        is_stratification(n, deps, v) && 0 <= i < n ==> s[i] <= #[trigger] v[i]
}

/// The strata as natural numbers.
pub open spec fn strata_view(s: Seq<usize>) -> Seq<nat> {
    Seq::new(s.len(), |i: int| s[i] as nat)
}

/// The sum of the numbers of `s`.
pub open spec fn total(s: Seq<usize>) -> int
    decreases s.len(),
{
    if s.len() == 0 {
        0
    } else {
        total(s.drop_last()) + s.last()
    }
}

/// The strata among those that occur in `v` which are below `x`.
pub open spec fn strata_below(v: Seq<nat>, x: nat) -> Set<nat> {
    v.to_set().filter(|y: nat| y < x)
}

/// The strata of `v` without gaps: each stratum is replaced by the number
/// of strata below it.
pub open spec fn compressed(v: Seq<nat>) -> Seq<nat> {
    Seq::new(v.len(), |i: int| strata_below(v, v[i]).len())
}

proof fn lemma_total_bound(s: Seq<usize>, bound: nat)
    requires
        forall|i: int| 0 <= i < s.len() ==> #[trigger] s[i] <= bound,
    ensures
        total(s) <= s.len() * bound,
    decreases s.len(),
{
    if s.len() > 0 {
        lemma_total_bound(s.drop_last(), bound);
        assert(s.drop_last().len() * bound + bound == s.len() * bound) by (nonlinear_arith)
            requires
                s.drop_last().len() + 1 == s.len(),
        ;
    } else {
        assert(s.len() * bound == 0) by (nonlinear_arith)
            requires
                s.len() == 0,
        ;
    }
}

proof fn lemma_total_update(s: Seq<usize>, i: int, x: usize)
    requires
        0 <= i < s.len(),
    ensures
        total(s.update(i, x)) == total(s) - s[i] + x,
    decreases s.len(),
{
    let t = s.update(i, x);
    if i == s.len() - 1 {
        assert(t.drop_last() =~= s.drop_last());
    } else {
        lemma_total_update(s.drop_last(), i, x);
        assert(t.drop_last() =~= s.drop_last().update(i, x));
    }
}

/// A stratification without gaps is one too, and uses only strata below the
/// number of relations.
proof fn lemma_compressed(n: nat, deps: Seq<Dependency>, v: Seq<nat>)
    requires
        is_stratification(n, deps, v),
        forall|k: int| 0 <= k < deps.len() ==> in_range(n, #[trigger] deps[k]),
    ensures
        is_stratification(n, deps, compressed(v)),
        forall|i: int| 0 <= i < n ==> #[trigger] compressed(v)[i] < n,
{
    let all = v.to_set();
    seq_to_set_is_finite(v);
    v.lemma_cardinality_of_set();
    assert forall|i: int| 0 <= i < n implies #[trigger] compressed(v)[i] < n by {
        let below = strata_below(v, v[i]);
        assert(all.contains(v[i]));
        assert(below.subset_of(all.remove(v[i])));
        lemma_len_subset(below, all.remove(v[i]));
    }
    assert forall|k: int| 0 <= k < deps.len() implies respects(#[trigger] deps[k], compressed(v)) by {
        let d = deps[k];
        assert(in_range(n, d));
        assert(respects(d, v));
        let lo = strata_below(v, v[d.source as int]);
        let hi = strata_below(v, v[d.reader as int]);
        assert(hi.subset_of(all));
        lemma_len_subset(hi, all);
        assert(lo.subset_of(hi));
        lemma_len_subset(lo, hi);
        if d.strict {
            assert(all.contains(v[d.source as int]));
            assert(hi.contains(v[d.source as int]));
            assert(lo.subset_of(hi.remove(v[d.source as int])));
            lemma_len_subset(lo, hi.remove(v[d.source as int]));
        }
    }
}

/// Gives each of the `n` relations of a program its stratum, from the
/// dependencies between them. The strata are the earliest that respect all
/// dependencies, so they are the same whenever the dependencies are. Fails
/// if, and only if, no strata respect all dependencies, or a dependency
/// names a relation beyond the `n`.
pub fn stratify(n: usize, deps: &Vec<Dependency>) -> (r: Result<Vec<usize>, StratifyError>)
    ensures
        match r {
            Ok(s) => {
                &&& is_stratification(n as nat, deps@, strata_view(s@))
                &&& is_earliest(n as nat, deps@, strata_view(s@))
                &&& forall|i: int| 0 <= i < n ==> #[trigger] s@[i] < n
            },
            Err(StratifyError::UnknownRelation(k)) => {
                &&& 0 <= k < deps@.len()
                &&& !in_range(n as nat, deps@[k as int])
                &&& forall|j: int| 0 <= j < k ==> in_range(n as nat, #[trigger] deps@[j])
            },
            Err(StratifyError::Unstratifiable) => {
                &&& forall|j: int| 0 <= j < deps@.len() ==> in_range(n as nat, #[trigger] deps@[j])
                &&& forall|v: Seq<nat>| !is_stratification(n as nat, deps@, v)
            },
        },
{
    let mut k: usize = 0;
    while k < deps.len()
        invariant
            k <= deps@.len(),
            forall|j: int| 0 <= j < k ==> in_range(n as nat, #[trigger] deps@[j]),
        decreases deps@.len() - k,
    {
        if deps[k].reader >= n || deps[k].source >= n {
            return Err(StratifyError::UnknownRelation(k));
        }
        k += 1;
    }
    let mut s: Vec<usize> = Vec::new();
    let mut i: usize = 0;
    while i < n
        invariant
            i <= n,
            s@.len() == i,
            forall|j: int| 0 <= j < i ==> #[trigger] s@[j] == 0,
        decreases n - i,
    {
        s.push(0);
        i += 1;
    }
    loop
        invariant
            s@.len() == n,
            forall|j: int| 0 <= j < deps@.len() ==> in_range(n as nat, #[trigger] deps@[j]),
            forall|j: int| 0 <= j < n ==> #[trigger] s@[j] < n,
            is_earliest(n as nat, deps@, strata_view(s@)),
        decreases n * n - total(s@),
    {
        let ghost start = s@;
        proof {
            lemma_total_bound(s@, n as nat);
            assert(total(start) <= n * n);
        }
        let mut changed = false;
        let mut k: usize = 0;
        while k < deps.len()
            invariant
                k <= deps@.len(),
                s@.len() == n,
                start.len() == n,
                forall|j: int| 0 <= j < deps@.len() ==> in_range(n as nat, #[trigger] deps@[j]),
                forall|j: int| 0 <= j < n ==> #[trigger] s@[j] < n,
                is_earliest(n as nat, deps@, strata_view(s@)),
                total(start) <= n * n,
                total(s@) >= total(start),
                changed ==> total(s@) > total(start),
                !changed ==> s@ == start,
                !changed ==> forall|j: int|
                    0 <= j < k ==> respects(#[trigger] deps@[j], strata_view(s@)),
            decreases deps@.len() - k,
        {
            let d = deps[k];
            assert(in_range(n as nat, deps@[k as int]));
            let need: usize = if d.strict {
                s[d.source] + 1
            } else {
                s[d.source]
            };
            if s[d.reader] < need {
                let ghost now = strata_view(s@);
                proof {
                    // Every stratification puts the reader at `need` or later.
                    assert forall|v: Seq<nat>| is_stratification(n as nat, deps@, v) implies need
                        <= v[d.reader as int] by {
                        assert(respects(deps@[k as int], v));
                        assert(now[d.source as int] <= v[d.source as int]);
                    }
                }
                if need >= n {
                    proof {
                        assert forall|v: Seq<nat>| !is_stratification(n as nat, deps@, v) by {
                            if is_stratification(n as nat, deps@, v) {
                                lemma_compressed(n as nat, deps@, v);
                                let w = compressed(v);
                                assert(need <= w[d.reader as int]);
                            }
                        }
                    }
                    return Err(StratifyError::Unstratifiable);
                }
                let ghost before = s@;
                s.set(d.reader, need);
                proof {
                    lemma_total_update(before, d.reader as int, need);
                    let next = strata_view(s@);
                    assert forall|v: Seq<nat>, j: int|
                        is_stratification(n as nat, deps@, v) && 0 <= j < n implies next[j]
                        <= #[trigger] v[j] by {
                        if j != d.reader {
                            assert(next[j] == now[j]);
                        }
                    }
                }
                changed = true;
            }
            k += 1;
        }
        if !changed {
            return Ok(s);
        }
        proof {
            lemma_total_bound(s@, n as nat);
            assert(total(s@) <= n * n);
        }
    }
}

/// Determinism: the earliest stratification of a program is the only one,
/// so the strata depend on nothing but the dependencies.
pub proof fn law_strata_unique(n: nat, deps: Seq<Dependency>, s: Seq<nat>, t: Seq<nat>)
    requires
        is_stratification(n, deps, s),
        is_earliest(n, deps, s),
        is_stratification(n, deps, t),
        is_earliest(n, deps, t),
    ensures
        s == t,
{
    assert forall|i: int| 0 <= i < n implies s[i] == t[i] by {
        assert(s[i] <= t[i]);
        assert(t[i] <= s[i]);
    }
    assert(s =~= t);
}

/// No relation reads a stratum that is computed after its own: of two
/// relations in different strata of which one reads the other, the one that
/// is read is computed first.
pub proof fn law_strata_order(n: nat, deps: Seq<Dependency>, s: Seq<nat>, k: int)
    requires
        is_stratification(n, deps, s),
        0 <= k < deps.len(),
    ensures
        s[deps[k].source as int] <= s[deps[k].reader as int],
        deps[k].strict ==> s[deps[k].source as int] < s[deps[k].reader as int],
{
    assert(respects(deps[k], s));
}

/// Whether `groups` are the strata that `s` names, from the first to the
/// last: every relation is in the group of its stratum and in no other, and
/// the relations of a group are in ascending order.
pub open spec fn groups_of(s: Seq<usize>, groups: Seq<Vec<usize>>) -> bool {
    &&& forall|i: int| 0 <= i < s.len() ==> (#[trigger] s[i]) < groups.len()
    &&& forall|i: int| 0 <= i < s.len() ==> groups[s[i] as int]@.contains(i as usize)
    &&& forall|g: int, j: int|
        0 <= g < groups.len() && 0 <= j < groups[g]@.len() ==> {
            &&& (#[trigger] groups[g]@[j]) < s.len()
            &&& s[groups[g]@[j] as int] == g
        }
    &&& forall|g: int, a: int, b: int|
        0 <= g < groups.len() && 0 <= a < b < groups[g]@.len() ==> (#[trigger] groups[g]@[a]) < (
        #[trigger] groups[g]@[b])
    &&& groups.len() > 0 ==> exists|i: int| 0 <= i < s.len() && s[i] == groups.len() - 1
}

/// The relations of each stratum, from the first stratum to the last one
/// that is in use, for strata that are below the number of relations, as
/// those of a stratification are.
pub fn group_strata(s: &Vec<usize>) -> (groups: Vec<Vec<usize>>)
    ensures
        (forall|i: int| 0 <= i < s@.len() ==> #[trigger] s@[i] < s@.len()) ==> groups_of(
            s@,
            groups@,
        ),
{
    let n = s.len();
    // the last stratum that is in use
    let mut last: usize = 0;
    let mut i: usize = 0;
    while i < n
        invariant
            i <= n,
            n == s@.len(),
            forall|j: int| 0 <= j < i ==> #[trigger] s@[j] <= last,
            forall|j: int| 0 <= j < i ==> #[trigger] s@[j] < n,
            i > 0 ==> exists|j: int| 0 <= j < i && s@[j] == last,
            i == 0 ==> last == 0,
        decreases n - i,
    {
        if s[i] >= n {
            // These are no strata of `n` relations: nothing is promised.
            return Vec::new();
        }
        if i == 0 || s[i] > last {
            last = s[i];
        }
        i += 1;
    }
    let mut groups: Vec<Vec<usize>> = Vec::new();
    if n == 0 {
        return groups;
    }
    let mut g: usize = 0;
    while g <= last
        invariant
            n == s@.len(),
            n > 0,
            last < n,
            g <= last + 1,
            groups@.len() == g,
            forall|j: int| 0 <= j < n ==> #[trigger] s@[j] <= last,
            exists|j: int| 0 <= j < n && s@[j] == last,
            forall|i: int| 0 <= i < n && s@[i] < g ==> groups@[s@[i] as int]@.contains(i as usize),
            forall|h: int, j: int|
                0 <= h < g && 0 <= j < groups@[h]@.len() ==> {
                    &&& (#[trigger] groups@[h]@[j]) < n
                    &&& s@[groups@[h]@[j] as int] == h
                },
            forall|h: int, a: int, b: int|
                0 <= h < g && 0 <= a < b < groups@[h]@.len() ==> (#[trigger] groups@[h]@[a]) < (
                #[trigger] groups@[h]@[b]),
        decreases last + 1 - g,
    {
        let mut members: Vec<usize> = Vec::new();
        let mut i: usize = 0;
        while i < n
            invariant
                i <= n,
                n == s@.len(),
                forall|j: int| 0 <= j < i && s@[j] == g ==> members@.contains(j as usize),
                forall|j: int|
                    0 <= j < members@.len() ==> (#[trigger] members@[j]) < i && s@[members@[j] as int]
                        == g,
                forall|a: int, b: int|
                    0 <= a < b < members@.len() ==> (#[trigger] members@[a]) < (
                    #[trigger] members@[b]),
            decreases n - i,
        {
            if s[i] == g {
                let ghost before = members@;
                members.push(i);
                proof {
                    assert(members@[before.len() as int] == i);
                    assert forall|j: int| 0 <= j < i && s@[j] == g implies members@.contains(
                        j as usize,
                    ) by {
                        let at = choose|at: int| 0 <= at < before.len() && before[at] == j as usize;
                        assert(members@[at] == j as usize);
                    }
                }
            }
            i += 1;
        }
        let ghost before = groups@;
        groups.push(members);
        proof {
            assert forall|i: int| 0 <= i < n && s@[i] < g + 1 implies groups@[s@[i] as int]@.contains(
                i as usize,
            ) by {
                if s@[i] < g {
                    assert(groups@[s@[i] as int] == before[s@[i] as int]);
                }
            }
        }
        g += 1;
    }
    groups
}

/// Whether `groups` are the strata of the earliest stratification of a
/// program with `n` relations.
pub open spec fn are_strata(n: nat, deps: Seq<Dependency>, groups: Seq<Vec<usize>>) -> bool {
    exists|s: Seq<usize>|
        is_stratification(n, deps, strata_view(s)) && is_earliest(n, deps, strata_view(s))
            && #[trigger] groups_of(s, groups)
}

/// The strata of a program with `n` relations, from the first to the last:
/// the relations of each stratum can be computed once those of the strata
/// before it are complete.
pub fn strata(n: usize, deps: &Vec<Dependency>) -> (r: Result<Vec<Vec<usize>>, StratifyError>)
    ensures
        match r {
            Ok(groups) => are_strata(n as nat, deps@, groups@),
            Err(StratifyError::UnknownRelation(k)) => {
                &&& 0 <= k < deps@.len()
                &&& !in_range(n as nat, deps@[k as int])
                &&& forall|j: int| 0 <= j < k ==> in_range(n as nat, #[trigger] deps@[j])
            },
            Err(StratifyError::Unstratifiable) => {
                &&& forall|j: int| 0 <= j < deps@.len() ==> in_range(n as nat, #[trigger] deps@[j])
                &&& forall|v: Seq<nat>| !is_stratification(n as nat, deps@, v)
            },
        },
{
    match stratify(n, deps) {
        Ok(s) => {
            let groups = group_strata(&s);
            proof {
                let w = s@;
                assert(is_stratification(n as nat, deps@, strata_view(w)));
                assert(is_earliest(n as nat, deps@, strata_view(w)));
                assert(groups_of(w, groups@));
            }
            Ok(groups)
        },
        Err(StratifyError::UnknownRelation(k)) => Err(StratifyError::UnknownRelation(k)),
        Err(StratifyError::Unstratifiable) => Err(StratifyError::Unstratifiable),
    }
}

/// The dependency that arises from the place `j` of the body of `rule`: its
/// head reads the relation there, strictly if the atom is negated or the rule
/// aggregates.
pub open spec fn atom_dependency(rule: Rule, j: int) -> Dependency {
    Dependency {
        reader: rule.head,
        source: rule.body@[j].relation,
        strict: rule.body@[j].negated || rule.aggregates,
    }
}

/// The dependencies that arise from one rule, in the order of its body.
pub open spec fn rule_dependencies(rule: Rule) -> Seq<Dependency> {
    Seq::new(rule.body@.len(), |j: int| atom_dependency(rule, j))
}

/// The dependencies that arise from the rules, in the order of the rules.
pub open spec fn program_dependencies(rules: Seq<Rule>) -> Seq<Dependency>
    decreases rules.len(),
{
    if rules.len() == 0 {
        Seq::empty()
    } else {
        program_dependencies(rules.drop_last()) + rule_dependencies(rules.last())
    }
}

/// The dependencies between the relations of a program, read off its rules.
pub fn dependencies(rules: &Vec<Rule>) -> (deps: Vec<Dependency>)
    ensures
        deps@ == program_dependencies(rules@),
{
    let mut deps: Vec<Dependency> = Vec::new();
    let mut i: usize = 0;
    while i < rules.len()
        invariant
            i <= rules@.len(),
            deps@ == program_dependencies(rules@.take(i as int)),
        decreases rules@.len() - i,
    {
        let rule = &rules[i];
        let ghost done = deps@;
        let mut j: usize = 0;
        while j < rule.body.len()
            invariant
                j <= rule.body@.len(),
                deps@ == done + rule_dependencies(*rule).take(j as int),
            decreases rule.body@.len() - j,
        {
            let atom = rule.body[j];
            deps.push(
                Dependency {
                    reader: rule.head,
                    source: atom.relation,
                    strict: atom.negated || rule.aggregates,
                },
            );
            proof {
                let all = rule_dependencies(*rule);
                assert(all.take(j + 1) =~= all.take(j as int).push(all[j as int]));
                assert(deps@ =~= done + all.take(j + 1));
            }
            j += 1;
        }
        proof {
            let all = rule_dependencies(*rule);
            assert(all.take(all.len() as int) =~= all);
            assert(rules@.take(i + 1).drop_last() =~= rules@.take(i as int));
            assert(rules@.take(i + 1).last() == rules@[i as int]);
        }
        i += 1;
    }
    proof {
        assert(rules@.take(rules@.len() as int) =~= rules@);
    }
    deps
}

} // verus!
