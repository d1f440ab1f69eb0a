//! Matching input value tokens against a grammar AST: ranges fill their
//! slots left to right, enumerations commit to the first matching
//! alternative, and unordered combinators consume their children by
//! repeatedly trying each not-yet-consumed child against the remaining
//! input.

use vstd::prelude::*;
use crate::ast::{
    AllOrdered, AllUnordered, CombinedValue, Enumeration, Multiplier, OneOrMoreUnordered,
    PrimitiveValue, SingleValue,
};

verus! {

/// One input token: its text, and the rule name it satisfies when it is a
/// value of some named rule.
pub struct InputToken {
    pub text: String,
    pub rule: Option<String>,
}

/// Whether a token satisfies a rule of the given name.
pub open spec fn spec_token_rule(t: InputToken, name: Seq<char>) -> bool {
    match t.rule {
        Some(r) => r@ == name,
        None => false,
    }
}

/// Matching one primitive at a position: a keyword or literal consumes
/// one token of equal text, a reference one token satisfying the named
/// rule, and a group matches its sub-grammar in place.
pub open spec fn spec_match_primitive(p: PrimitiveValue, toks: Seq<InputToken>, i: int) -> Option<
    int,
>
    decreases p, 0int, 0int,
{
    match p {
        PrimitiveValue::Keyword(kw) => if 0 <= i < toks.len() && toks[i].text@ == kw.text()
            && toks[i].rule is None {
            Some(i + 1)
        } else {
            None
        },
        PrimitiveValue::Literal(s) => if 0 <= i < toks.len() && toks[i].text@ == s@ {
            Some(i + 1)
        } else {
            None
        },
        PrimitiveValue::Reference(r) => if 0 <= i < toks.len() && spec_token_rule(
            toks[i],
            r.ident.text(),
        ) {
            Some(i + 1)
        } else {
            None
        },
        PrimitiveValue::PropertyReference(s) => if 0 <= i < toks.len() && spec_token_rule(
            toks[i],
            s@,
        ) {
            Some(i + 1)
        } else {
            None
        },
        PrimitiveValue::Group(b) => spec_match_combined(*b, toks, i),
    }
}

/// Greedy repetition of a primitive; stops when it no longer matches or
/// no longer makes progress.
pub open spec fn spec_match_star(p: PrimitiveValue, toks: Seq<InputToken>, i: int) -> int
    decreases p, 1int, toks.len() - i,
{
    if i < 0 || i > toks.len() {
        i
    } else {
        match spec_match_primitive(p, toks, i) {
            Some(j) => if i < j <= toks.len() {
                spec_match_star(p, toks, j)
            } else {
                i
            },
            None => i,
        }
    }
}

/// Greedy comma-separated repetition: while a lone comma token follows
/// and the primitive matches after it, both are consumed.
pub open spec fn spec_match_comma_star(p: PrimitiveValue, toks: Seq<InputToken>, i: int) -> int
    decreases p, 1int, toks.len() - i,
{
    if i < 0 || i >= toks.len() {
        i
    } else if toks[i].text@ == ","@ && toks[i].rule is None {
        match spec_match_primitive(p, toks, i + 1) {
            Some(j) => if i + 1 < j <= toks.len() {
                spec_match_comma_star(p, toks, j)
            } else {
                i
            },
            None => i,
        }
    } else {
        i
    }
}

/// How many of the `extra` optional slots of a bounded range fill: each
/// fills only while every earlier one filled and the input still gives.
pub open spec fn spec_match_extra(p: PrimitiveValue, extra: nat, toks: Seq<InputToken>, i: int) -> (
    nat,
    int,
)
    decreases p, 1int, extra,
{
    if extra == 0 {
        (0, i)
    } else {
        match spec_match_primitive(p, toks, i) {
            Some(j) => if i < j <= toks.len() {
                let (k, e) = spec_match_extra(p, (extra - 1) as nat, toks, j);
                ((k + 1) as nat, e)
            } else {
                (0, i)
            },
            None => (0, i),
        }
    }
}

/// Matching the required slots of a range: `need` instances in a row.
pub open spec fn spec_match_required(p: PrimitiveValue, need: nat, toks: Seq<InputToken>, i: int) -> Option<
    int,
>
    decreases p, 1int, need,
{
    if need == 0 {
        Some(i)
    } else {
        match spec_match_primitive(p, toks, i) {
            Some(j) => if i < j <= toks.len() {
                spec_match_required(p, (need - 1) as nat, toks, j)
            } else {
                None
            },
            None => None,
        }
    }
}

/// Matching one primitive with its multiplier.
pub open spec fn spec_match_single(sv: SingleValue, toks: Seq<InputToken>, i: int) -> Option<int>
    decreases sv, 2int, 0int,
{
    match sv.multiplier {
        None => spec_match_primitive(sv.value, toks, i),
        Some(Multiplier::Required) => spec_match_primitive(sv.value, toks, i),
        Some(Multiplier::Optional) => match spec_match_primitive(sv.value, toks, i) {
            Some(j) => Some(j),
            None => Some(i),
        },
        Some(Multiplier::ZeroOrMore) => Some(spec_match_star(sv.value, toks, i)),
        Some(Multiplier::OneOrMore) => match spec_match_primitive(sv.value, toks, i) {
            Some(j) => if i < j <= toks.len() {
                Some(spec_match_star(sv.value, toks, j))
            } else {
                Some(j)
            },
            None => None,
        },
        Some(Multiplier::OneOrMoreComma) => match spec_match_primitive(sv.value, toks, i) {
            Some(j) => if i < j <= toks.len() {
                Some(spec_match_comma_star(sv.value, toks, j))
            } else {
                Some(j)
            },
            None => None,
        },
        Some(Multiplier::Range(r)) => {
            let (lo, hi) = r.spec_bounds();
            if lo == 0 {
                None
            } else {
                match hi {
                    None => match spec_match_required(sv.value, lo as nat, toks, i) {
                        Some(j) => Some(spec_match_star(sv.value, toks, j)),
                        None => None,
                    },
                    Some(h) => if lo > h {
                        None
                    } else {
                        match spec_match_required(sv.value, lo as nat, toks, i) {
                            Some(j) => {
                                let (_, e) = spec_match_extra(
                                    sv.value,
                                    (h - lo) as nat,
                                    toks,
                                    j,
                                );
                                Some(e)
                            },
                            None => None,
                        }
                    },
                }
            }
        },
    }
}

/// Matching a sequence: components in order, left to right.
pub open spec fn spec_match_seq(cs: Seq<SingleValue>, toks: Seq<InputToken>, i: int) -> Option<int>
    decreases cs, 0int, 0int,
{
    if cs.len() == 0 {
        Some(i)
    } else {
        match spec_match_single(cs[0], toks, i) {
            Some(j) => spec_match_seq(cs.drop_first(), toks, j),
            None => None,
        }
    }
}

pub open spec fn spec_match_all_ordered(ao: AllOrdered, toks: Seq<InputToken>, i: int) -> Option<
    int,
>
    decreases ao, 1int, 0int,
{
    spec_match_seq(ao.components@, toks, i)
}

/// How many entries of a consumption map are still false.
pub open spec fn count_unused(used: Seq<bool>) -> nat
    decreases used.len(),
{
    if used.len() == 0 {
        0
    } else {
        (if used[0] {
            0nat
        } else {
            1nat
        }) + count_unused(used.drop_first())
    }
}

pub proof fn lemma_count_unused_update(used: Seq<bool>, k: int)
    requires
        0 <= k < used.len(),
        !used[k],
    ensures
        count_unused(used.update(k, true)) < count_unused(used),
    decreases used.len(),
{
    if k == 0 {
        assert(used.update(0, true).drop_first() =~= used.drop_first());
    } else {
        assert(used.update(k, true).drop_first() =~= used.drop_first().update(k - 1, true));
        assert(used.update(k, true)[0] == used[0]);
        lemma_count_unused_update(used.drop_first(), k - 1);
    }
}

/// The first not-yet-consumed child, scanning from `k`, that matches at
/// the position.
pub open spec fn spec_scan_unordered(
    cs: Seq<AllOrdered>,
    used: Seq<bool>,
    k: int,
    toks: Seq<InputToken>,
    i: int,
) -> Option<(int, int)>
    decreases cs, 2int, cs.len() - k,
{
    if k < 0 || k >= cs.len() {
        None
    } else if 0 <= k < used.len() && !used[k] {
        match spec_match_all_ordered(cs[k], toks, i) {
            Some(j) => Some((k, j)),
            None => spec_scan_unordered(cs, used, k + 1, toks, i),
        }
    } else {
        spec_scan_unordered(cs, used, k + 1, toks, i)
    }
}

/// The unordered consumption loop: try each not-yet-consumed child
/// against the remaining input until all are consumed or no progress is
/// possible. Returns the final consumption map and position.
pub open spec fn spec_unordered_loop(
    cs: Seq<AllOrdered>,
    used: Seq<bool>,
    toks: Seq<InputToken>,
    i: int,
) -> (Seq<bool>, int)
    decreases cs, 3int, count_unused(used),
{
    match spec_scan_unordered(cs, used, 0, toks, i) {
        None => (used, i),
        Some((k, j)) => if 0 <= k < used.len() && !used[k] && count_unused(
            used.update(k, true),
        ) < count_unused(used) {
            spec_unordered_loop(cs, used.update(k, true), toks, j)
        } else {
            (used, i)
        },
    }
}

pub open spec fn all_used(used: Seq<bool>) -> bool {
    forall|k: int| 0 <= k < used.len() ==> used[k]
}

pub open spec fn any_used(used: Seq<bool>) -> bool {
    exists|k: int| 0 <= k < used.len() && used[k]
}

/// Matching an all-unordered node: every child must be consumed, in any
/// order that makes progress.
pub open spec fn spec_match_all_unordered(au: AllUnordered, toks: Seq<InputToken>, i: int) -> Option<
    int,
>
    decreases au, 4int, 0int,
{
    if au.components@.len() == 1 {
        spec_match_all_ordered(au.components@[0], toks, i)
    } else {
        let (used, j) = spec_unordered_loop(
            au.components@,
            Seq::new(au.components@.len(), |k: int| false),
            toks,
            i,
        );
        if all_used(used) {
            Some(j)
        } else {
            None
        }
    }
}

pub open spec fn spec_scan_oomu(
    cs: Seq<AllUnordered>,
    used: Seq<bool>,
    k: int,
    toks: Seq<InputToken>,
    i: int,
) -> Option<(int, int)>
    decreases cs, 5int, cs.len() - k,
{
    if k < 0 || k >= cs.len() {
        None
    } else if 0 <= k < used.len() && !used[k] {
        match spec_match_all_unordered(cs[k], toks, i) {
            Some(j) => Some((k, j)),
            None => spec_scan_oomu(cs, used, k + 1, toks, i),
        }
    } else {
        spec_scan_oomu(cs, used, k + 1, toks, i)
    }
}

pub open spec fn spec_oomu_loop(
    cs: Seq<AllUnordered>,
    used: Seq<bool>,
    toks: Seq<InputToken>,
    i: int,
) -> (Seq<bool>, int)
    decreases cs, 6int, count_unused(used),
{
    match spec_scan_oomu(cs, used, 0, toks, i) {
        None => (used, i),
        Some((k, j)) => if 0 <= k < used.len() && !used[k] && count_unused(
            used.update(k, true),
        ) < count_unused(used) {
            spec_oomu_loop(cs, used.update(k, true), toks, j)
        } else {
            (used, i)
        },
    }
}

/// Matching a one-or-more-unordered node: like all-unordered, but it
/// succeeds once at least one child matched; unmatched children stay
/// absent.
pub open spec fn spec_match_oomu(om: OneOrMoreUnordered, toks: Seq<InputToken>, i: int) -> Option<
    int,
>
    decreases om, 7int, 0int,
{
    if om.components@.len() == 1 {
        spec_match_all_unordered(om.components@[0], toks, i)
    } else {
        let (used, j) = spec_oomu_loop(
            om.components@,
            Seq::new(om.components@.len(), |k: int| false),
            toks,
            i,
        );
        if any_used(used) {
            Some(j)
        } else {
            None
        }
    }
}

/// The first alternative, in declaration order, that matches at the
/// position: first-match-wins, not longest-match.
pub open spec fn spec_first_alternative(
    cs: Seq<OneOrMoreUnordered>,
    k: int,
    toks: Seq<InputToken>,
    i: int,
) -> Option<(int, int)>
    decreases cs, 8int, cs.len() - k,
{
    if k < 0 || k >= cs.len() {
        None
    } else {
        match spec_match_oomu(cs[k], toks, i) {
            Some(j) => Some((k, j)),
            None => spec_first_alternative(cs, k + 1, toks, i),
        }
    }
}

/// Matching an enumeration: the first matching alternative wins and no
/// later alternative is attempted.
pub open spec fn spec_match_enumeration(e: Enumeration, toks: Seq<InputToken>, i: int) -> Option<
    int,
>
    decreases e, 9int, 0int,
{
    if e.components@.len() == 1 {
        spec_match_oomu(e.components@[0], toks, i)
    } else {
        match spec_first_alternative(e.components@, 0, toks, i) {
            Some((_, j)) => Some(j),
            None => None,
        }
    }
}

/// Matching any combinator expression.
pub open spec fn spec_match_combined(cv: CombinedValue, toks: Seq<InputToken>, i: int) -> Option<
    int,
>
    decreases cv, 10int, 0int,
{
    match cv {
        CombinedValue::Single(sv) => spec_match_single(sv, toks, i),
        CombinedValue::AllOrdered(v) => spec_match_all_ordered(v, toks, i),
        CombinedValue::AllUnordered(v) => spec_match_all_unordered(v, toks, i),
        CombinedValue::OneOrMoreUnordered(v) => spec_match_oomu(v, toks, i),
        CombinedValue::Enumeration(v) => spec_match_enumeration(v, toks, i),
    }
}

fn token_satisfies(t: &InputToken, name: &String) -> (r: bool)
    ensures
        r == spec_token_rule(*t, name@),
{
    match &t.rule {
        Some(rr) => *rr == *name,
        None => false,
    }
}

/// Matches one primitive at a position.
pub fn match_primitive(p: &PrimitiveValue, toks: &Vec<InputToken>, i: usize) -> (r: Option<usize>)
    requires
        i <= toks@.len(),
    ensures
        (match r {
            Some(j) => spec_match_primitive(*p, toks@, i as int) == Some(j as int) && i <= j
                <= toks@.len(),
            None => spec_match_primitive(*p, toks@, i as int) is None,
        }),
    decreases *p, 0int, 0int,
{
    match p {
        PrimitiveValue::Keyword(kw) => {
            if i < toks.len() {
                let text = kw.value();
                if toks[i].text == text && toks[i].rule.is_none() {
                    Some(i + 1)
                } else {
                    None
                }
            } else {
                None
            }
        },
        PrimitiveValue::Literal(s) => {
            if i < toks.len() && toks[i].text == *s {
                Some(i + 1)
            } else {
                None
            }
        },
        PrimitiveValue::Reference(r) => {
            if i < toks.len() {
                let name = r.ident.value();
                if token_satisfies(&toks[i], &name) {
                    Some(i + 1)
                } else {
                    None
                }
            } else {
                None
            }
        },
        PrimitiveValue::PropertyReference(s) => {
            if i < toks.len() && token_satisfies(&toks[i], s) {
                Some(i + 1)
            } else {
                None
            }
        },
        PrimitiveValue::Group(b) => match_combined(b, toks, i),
    }
}

fn match_star(p: &PrimitiveValue, toks: &Vec<InputToken>, i: usize) -> (r: usize)
    requires
        i <= toks@.len(),
    ensures
        r == spec_match_star(*p, toks@, i as int),
        i <= r <= toks@.len(),
    decreases *p, 1int, toks@.len() - i,
{
    match match_primitive(p, toks, i) {
        Some(j) => {
            if i < j {
                match_star(p, toks, j)
            } else {
                i
            }
        },
        None => i,
    }
}

fn match_comma_star(p: &PrimitiveValue, toks: &Vec<InputToken>, i: usize) -> (r: usize)
    requires
        i <= toks@.len(),
    ensures
        r == spec_match_comma_star(*p, toks@, i as int),
        i <= r <= toks@.len(),
    decreases *p, 1int, toks@.len() - i,
{
    if i < toks.len() {
        let is_comma = {
            let mut comma = String::new();
            comma.push(',');
            proof {
                assert(comma@ =~= ","@) by {
                    reveal_strlit(",");
                }
            }
            toks[i].text == comma && toks[i].rule.is_none()
        };
        if is_comma {
            match match_primitive(p, toks, i + 1) {
                Some(j) => {
                    if i + 1 < j {
                        match_comma_star(p, toks, j)
                    } else {
                        i
                    }
                },
                None => i,
            }
        } else {
            i
        }
    } else {
        i
    }
}

fn match_required(p: &PrimitiveValue, need: u64, toks: &Vec<InputToken>, i: usize) -> (r: Option<
    usize,
>)
    requires
        i <= toks@.len(),
    ensures
        (match r {
            Some(j) => spec_match_required(*p, need as nat, toks@, i as int) == Some(j as int) && i
                <= j <= toks@.len(),
            None => spec_match_required(*p, need as nat, toks@, i as int) is None,
        }),
    decreases *p, 1int, need,
{
    if need == 0 {
        Some(i)
    } else {
        match match_primitive(p, toks, i) {
            Some(j) => {
                if i < j {
                    match_required(p, need - 1, toks, j)
                } else {
                    None
                }
            },
            None => None,
        }
    }
}

fn match_extra(p: &PrimitiveValue, extra: u64, toks: &Vec<InputToken>, i: usize) -> (r: (
    u64,
    usize,
))
    requires
        i <= toks@.len(),
    ensures
        (r.0 as nat, r.1 as int) == spec_match_extra(*p, extra as nat, toks@, i as int),
        r.0 <= extra,
        i <= r.1 <= toks@.len(),
    decreases *p, 1int, extra,
{
    if extra == 0 {
        (0, i)
    } else {
        match match_primitive(p, toks, i) {
            Some(j) => {
                if i < j {
                    let (k, e) = match_extra(p, extra - 1, toks, j);
                    (k + 1, e)
                } else {
                    (0, i)
                }
            },
            None => (0, i),
        }
    }
}

/// Matches one primitive with its multiplier.
pub fn match_single(sv: &SingleValue, toks: &Vec<InputToken>, i: usize) -> (r: Option<usize>)
    requires
        i <= toks@.len(),
    ensures
        (match r {
            Some(j) => spec_match_single(*sv, toks@, i as int) == Some(j as int) && i <= j
                <= toks@.len(),
            None => spec_match_single(*sv, toks@, i as int) is None,
        }),
    decreases *sv, 2int, 0int,
{
    match &sv.multiplier {
        None => match_primitive(&sv.value, toks, i),
        Some(Multiplier::Required) => match_primitive(&sv.value, toks, i),
        Some(Multiplier::Optional) => {
            match match_primitive(&sv.value, toks, i) {
                Some(j) => Some(j),
                None => Some(i),
            }
        },
        Some(Multiplier::ZeroOrMore) => Some(match_star(&sv.value, toks, i)),
        Some(Multiplier::OneOrMore) => {
            match match_primitive(&sv.value, toks, i) {
                Some(j) => {
                    if i < j {
                        Some(match_star(&sv.value, toks, j))
                    } else {
                        Some(j)
                    }
                },
                None => None,
            }
        },
        Some(Multiplier::OneOrMoreComma) => {
            match match_primitive(&sv.value, toks, i) {
                Some(j) => {
                    if i < j {
                        Some(match_comma_star(&sv.value, toks, j))
                    } else {
                        Some(j)
                    }
                },
                None => None,
            }
        },
        Some(Multiplier::Range(range)) => {
            let (lo, hi) = range.bounds();
            if lo == 0 {
                return None;
            }
            match hi {
                None => {
                    match match_required(&sv.value, lo, toks, i) {
                        Some(j) => Some(match_star(&sv.value, toks, j)),
                        None => None,
                    }
                },
                Some(h) => {
                    if lo > h {
                        return None;
                    }
                    match match_required(&sv.value, lo, toks, i) {
                        Some(j) => {
                            let (_, e) = match_extra(&sv.value, h - lo, toks, j);
                            Some(e)
                        },
                        None => None,
                    }
                },
            }
        },
    }
}

fn match_seq_from(cs: &Vec<SingleValue>, from: usize, toks: &Vec<InputToken>, i: usize) -> (r:
    Option<usize>)
    requires
        from <= cs@.len(),
        i <= toks@.len(),
    ensures
        (match r {
            Some(j) => spec_match_seq(cs@.skip(from as int), toks@, i as int) == Some(j as int)
                && i <= j <= toks@.len(),
            None => spec_match_seq(cs@.skip(from as int), toks@, i as int) is None,
        }),
    decreases cs@, 0int, cs@.len() - from,
{
    if from >= cs.len() {
        proof {
            assert(cs@.skip(from as int) =~= Seq::<SingleValue>::empty());
        }
        Some(i)
    } else {
        proof {
            assert(cs@.skip(from as int)[0] == cs@[from as int]);
            assert(cs@.skip(from as int).drop_first() =~= cs@.skip(from + 1));
        }
        match match_single(&cs[from], toks, i) {
            Some(j) => match_seq_from(cs, from + 1, toks, j),
            None => None,
        }
    }
}

/// Matches a sequence node: components in order.
pub fn match_all_ordered(ao: &AllOrdered, toks: &Vec<InputToken>, i: usize) -> (r: Option<usize>)
    requires
        i <= toks@.len(),
    ensures
        (match r {
            Some(j) => spec_match_all_ordered(*ao, toks@, i as int) == Some(j as int) && i <= j
                <= toks@.len(),
            None => spec_match_all_ordered(*ao, toks@, i as int) is None,
        }),
    decreases *ao, 1int, 0int,
{
    proof {
        assert(ao.components@.skip(0) =~= ao.components@);
    }
    match_seq_from(&ao.components, 0, toks, i)
}

fn count_unused_exec(used: &Vec<bool>) -> (r: usize)
    ensures
        r == count_unused(used@),
{
    let mut n: usize = 0;
    let mut k: usize = 0;
    while k < used.len()
        invariant
            k <= used@.len(),
            n == count_unused(used@.take(k as int)),
            n <= k,
        decreases used@.len() - k,
    {
        proof {
            assert(used@.take(k + 1).drop_last() =~= used@.take(k as int));
            lemma_count_unused_snoc(used@.take(k + 1));
        }
        if !used[k] {
            n = n + 1;
        }
        k = k + 1;
    }
    proof {
        assert(used@.take(used@.len() as int) =~= used@);
    }
    n
}

/// Counting unused entries splits off the last one.
proof fn lemma_count_unused_snoc(used: Seq<bool>)
    requires
        used.len() > 0,
    ensures
        count_unused(used) == count_unused(used.drop_last()) + (if used.last() {
            0int
        } else {
            1int
        }),
    decreases used.len(),
{
    if used.len() == 1 {
        assert(used.drop_first() =~= Seq::<bool>::empty());
        assert(used.drop_last() =~= Seq::<bool>::empty());
    } else {
        assert(used.drop_first().drop_last() =~= used.drop_last().drop_first());
        assert(used.drop_last()[0] == used[0]);
        assert(used.drop_first().last() == used.last());
        lemma_count_unused_snoc(used.drop_first());
    }
}

fn scan_unordered(
    cs: &Vec<AllOrdered>,
    used: &Vec<bool>,
    from: usize,
    toks: &Vec<InputToken>,
    i: usize,
) -> (r: Option<(usize, usize)>)
    requires
        i <= toks@.len(),
    ensures
        (match r {
            Some((k, j)) => spec_scan_unordered(cs@, used@, from as int, toks@, i as int) == Some(
                (k as int, j as int),
            ) && k < cs@.len() && i <= j <= toks@.len() && k < used@.len() && !used@[k as int],
            None => spec_scan_unordered(cs@, used@, from as int, toks@, i as int) is None,
        }),
    decreases cs@, 0int, cs@.len() - from,
{
    if from >= cs.len() {
        None
    } else if from < used.len() && !used[from] {
        match match_all_ordered(&cs[from], toks, i) {
            Some(j) => Some((from, j)),
            None => scan_unordered(cs, used, from + 1, toks, i),
        }
    } else {
        scan_unordered(cs, used, from + 1, toks, i)
    }
}

fn unordered_loop(cs: &Vec<AllOrdered>, toks: &Vec<InputToken>, start: usize) -> (r: (
    Vec<bool>,
    usize,
))
    requires
        start <= toks@.len(),
    ensures
        (r.0@, r.1 as int) == spec_unordered_loop(
            cs@,
            Seq::new(cs@.len(), |k: int| false),
            toks@,
            start as int,
        ),
        start <= r.1 <= toks@.len(),
    decreases cs@, 1int, 0int,
{
    let mut used: Vec<bool> = Vec::new();
    let mut k: usize = 0;
    while k < cs.len()
        invariant
            k <= cs@.len(),
            used@ =~= Seq::new(k as nat, |x: int| false),
        decreases cs@.len() - k,
    {
        used.push(false);
        proof {
            assert(used@ =~= Seq::new((k + 1) as nat, |x: int| false));
        }
        k = k + 1;
    }
    let ghost used0 = used@;
    let mut i = start;
    loop
        invariant
            start <= i <= toks@.len(),
            used@.len() == cs@.len(),
            used0 == Seq::new(cs@.len(), |x: int| false),
            spec_unordered_loop(cs@, used0, toks@, start as int) == spec_unordered_loop(
                cs@,
                used@,
                toks@,
                i as int,
            ),
        decreases count_unused(used@),
    {
        match scan_unordered(cs, &used, 0, toks, i) {
            None => {
                proof {
                    assert(spec_unordered_loop(cs@, used@, toks@, i as int) == (used@, i as int));
                }
                return (used, i);
            },
            Some((k, j)) => {
                proof {
                    lemma_count_unused_update(used@, k as int);
                }
                used.set(k, true);
                i = j;
            },
        }
    }
}

/// Matches an all-unordered node: every component must be consumed, in
/// any order that makes progress.
pub fn match_all_unordered(au: &AllUnordered, toks: &Vec<InputToken>, i: usize) -> (r: Option<
    usize,
>)
    requires
        i <= toks@.len(),
    ensures
        (match r {
            Some(j) => spec_match_all_unordered(*au, toks@, i as int) == Some(j as int) && i <= j
                <= toks@.len(),
            None => spec_match_all_unordered(*au, toks@, i as int) is None,
        }),
    decreases *au, 2int, 0int,
{
    if au.components.len() == 1 {
        return match_all_ordered(&au.components[0], toks, i);
    }
    let (used, j) = unordered_loop(&au.components, toks, i);
    let mut all = true;
    let mut k: usize = 0;
    while k < used.len()
        invariant
            k <= used@.len(),
            all == (forall|x: int| 0 <= x < k ==> used@[x]),
        decreases used@.len() - k,
    {
        if !used[k] {
            all = false;
        }
        k = k + 1;
    }
    if all {
        Some(j)
    } else {
        None
    }
}

fn scan_oomu(
    cs: &Vec<AllUnordered>,
    used: &Vec<bool>,
    from: usize,
    toks: &Vec<InputToken>,
    i: usize,
) -> (r: Option<(usize, usize)>)
    requires
        i <= toks@.len(),
    ensures
        (match r {
            Some((k, j)) => spec_scan_oomu(cs@, used@, from as int, toks@, i as int) == Some(
                (k as int, j as int),
            ) && k < cs@.len() && i <= j <= toks@.len() && k < used@.len() && !used@[k as int],
            None => spec_scan_oomu(cs@, used@, from as int, toks@, i as int) is None,
        }),
    decreases cs@, 0int, cs@.len() - from,
{
    if from >= cs.len() {
        None
    } else if from < used.len() && !used[from] {
        match match_all_unordered(&cs[from], toks, i) {
            Some(j) => Some((from, j)),
            None => scan_oomu(cs, used, from + 1, toks, i),
        }
    } else {
        scan_oomu(cs, used, from + 1, toks, i)
    }
}

fn oomu_loop(cs: &Vec<AllUnordered>, toks: &Vec<InputToken>, start: usize) -> (r: (
    Vec<bool>,
    usize,
))
    requires
        start <= toks@.len(),
    ensures
        (r.0@, r.1 as int) == spec_oomu_loop(
            cs@,
            Seq::new(cs@.len(), |k: int| false),
            toks@,
            start as int,
        ),
        start <= r.1 <= toks@.len(),
    decreases cs@, 1int, 0int,
{
    let mut used: Vec<bool> = Vec::new();
    let mut k: usize = 0;
    while k < cs.len()
        invariant
            k <= cs@.len(),
            used@ =~= Seq::new(k as nat, |x: int| false),
        decreases cs@.len() - k,
    {
        used.push(false);
        proof {
            assert(used@ =~= Seq::new((k + 1) as nat, |x: int| false));
        }
        k = k + 1;
    }
    let ghost used0 = used@;
    let mut i = start;
    loop
        invariant
            start <= i <= toks@.len(),
            used@.len() == cs@.len(),
            used0 == Seq::new(cs@.len(), |x: int| false),
            spec_oomu_loop(cs@, used0, toks@, start as int) == spec_oomu_loop(
                cs@,
                used@,
                toks@,
                i as int,
            ),
        decreases count_unused(used@),
    {
        match scan_oomu(cs, &used, 0, toks, i) {
            None => {
                proof {
                    assert(spec_oomu_loop(cs@, used@, toks@, i as int) == (used@, i as int));
                }
                return (used, i);
            },
            Some((k, j)) => {
                proof {
                    lemma_count_unused_update(used@, k as int);
                }
                used.set(k, true);
                i = j;
            },
        }
    }
}

/// Matches a one-or-more-unordered node: succeeds once at least one
/// component matched.
pub fn match_oomu(om: &OneOrMoreUnordered, toks: &Vec<InputToken>, i: usize) -> (r: Option<usize>)
    requires
        i <= toks@.len(),
    ensures
        (match r {
            Some(j) => spec_match_oomu(*om, toks@, i as int) == Some(j as int) && i <= j
                <= toks@.len(),
            None => spec_match_oomu(*om, toks@, i as int) is None,
        }),
    decreases *om, 3int, 0int,
{
    if om.components.len() == 1 {
        return match_all_unordered(&om.components[0], toks, i);
    }
    let (used, j) = oomu_loop(&om.components, toks, i);
    let mut any = false;
    let mut k: usize = 0;
    while k < used.len()
        invariant
            k <= used@.len(),
            any == (exists|x: int| 0 <= x < k && used@[x]),
        decreases used@.len() - k,
    {
        if used[k] {
            any = true;
            proof {
                assert(used@[k as int]);
            }
        }
        k = k + 1;
    }
    if any {
        Some(j)
    } else {
        None
    }
}

/// Matches an enumeration and reports which alternative matched: the
/// first, in declaration order, that matches — later alternatives are
/// never attempted after a match.
pub fn match_first_alternative(e: &Enumeration, toks: &Vec<InputToken>, i: usize) -> (r: Option<
    (usize, usize),
>)
    requires
        i <= toks@.len(),
    ensures
        (match r {
            Some((v, j)) => spec_first_alternative(e.components@, 0, toks@, i as int) == Some(
                (v as int, j as int),
            ) && v < e.components@.len() && i <= j <= toks@.len(),
            None => spec_first_alternative(e.components@, 0, toks@, i as int) is None,
        }),
    decreases *e, 11int, 0int,
{
    match_alternative_from(e, 0, toks, i)
}

fn match_alternative_from(e: &Enumeration, from: usize, toks: &Vec<InputToken>, i: usize) -> (r:
    Option<(usize, usize)>)
    requires
        i <= toks@.len(),
    ensures
        (match r {
            Some((v, j)) => spec_first_alternative(e.components@, from as int, toks@, i as int)
                == Some((v as int, j as int)) && v < e.components@.len() && i <= j <= toks@.len(),
            None => spec_first_alternative(e.components@, from as int, toks@, i as int) is None,
        }),
    decreases *e, 10int, e.components@.len() - from,
{
    if from >= e.components.len() {
        None
    } else {
        match match_oomu(&e.components[from], toks, i) {
            Some(j) => Some((from, j)),
            None => match_alternative_from(e, from + 1, toks, i),
        }
    }
}

/// Matches an enumeration node.
pub fn match_enumeration(e: &Enumeration, toks: &Vec<InputToken>, i: usize) -> (r: Option<usize>)
    requires
        i <= toks@.len(),
    ensures
        (match r {
            Some(j) => spec_match_enumeration(*e, toks@, i as int) == Some(j as int) && i <= j
                <= toks@.len(),
            None => spec_match_enumeration(*e, toks@, i as int) is None,
        }),
    decreases *e, 12int, 0int,
{
    if e.components.len() == 1 {
        return match_oomu(&e.components[0], toks, i);
    }
    match match_first_alternative(e, toks, i) {
        Some((_, j)) => Some(j),
        None => None,
    }
}

/// Matches any combinator expression against the input at a position.
pub fn match_combined(cv: &CombinedValue, toks: &Vec<InputToken>, i: usize) -> (r: Option<usize>)
    requires
        i <= toks@.len(),
    ensures
        (match r {
            Some(j) => spec_match_combined(*cv, toks@, i as int) == Some(j as int) && i <= j
                <= toks@.len(),
            None => spec_match_combined(*cv, toks@, i as int) is None,
        }),
    decreases *cv, 13int, 0int,
{
    match cv {
        CombinedValue::Single(sv) => match_single(sv, toks, i),
        CombinedValue::AllOrdered(v) => match_all_ordered(v, toks, i),
        CombinedValue::AllUnordered(v) => match_all_unordered(v, toks, i),
        CombinedValue::OneOrMoreUnordered(v) => match_oomu(v, toks, i),
        CombinedValue::Enumeration(v) => match_enumeration(v, toks, i),
    }
}

/// The slot map in which the first `filled` of `hi` slots are filled.
pub open spec fn prefix_slots(filled: nat, hi: nat) -> Seq<bool> {
    Seq::new(hi, |s: int| s < filled)
}

/// A legal instance of a bounded range `{lo,hi}`: `hi` slots, every
/// required slot filled, and never a filled slot after a skipped earlier
/// one.
pub open spec fn spec_legal_instance(slots: Seq<bool>, lo: nat, hi: nat) -> bool {
    &&& slots.len() == hi
    &&& (forall|s: int| 0 <= s < lo && s < slots.len() ==> slots[s])
    &&& (forall|a: int, b: int|
        lo <= a < b < slots.len() && !slots[a] ==> !slots[b])
}

/// Every prefix-shaped instance with at least the required slots filled
/// is legal.
pub proof fn lemma_prefix_instance_legal(filled: nat, lo: nat, hi: nat)
    requires
        lo <= filled <= hi,
    ensures
        spec_legal_instance(prefix_slots(filled, hi), lo, hi),
{
}

/// In a legal instance a skipped optional slot is never followed by a
/// filled one.
pub proof fn lemma_no_fill_after_skip(slots: Seq<bool>, lo: nat, hi: nat, a: int, b: int)
    requires
        spec_legal_instance(slots, lo, hi),
        lo <= a < b < slots.len(),
        !slots[a],
    ensures
        !slots[b],
{
}

/// Matches a bounded range `{lo,hi}` of a primitive: `lo` required
/// instances, then greedily up to `hi - lo` optional ones, left to
/// right. On success the filled slots form a legal prefix-shaped
/// instance.
pub fn match_bounded_range(
    p: &PrimitiveValue,
    lo: u64,
    hi: u64,
    toks: &Vec<InputToken>,
    i: usize,
) -> (r: Option<(u64, usize)>)
    requires
        0 < lo <= hi,
        i <= toks@.len(),
    ensures
        (match r {
            Some((filled, next)) => {
                &&& lo <= filled <= hi
                &&& i <= next <= toks@.len()
                &&& spec_legal_instance(prefix_slots(filled as nat, hi as nat), lo as nat, hi as nat)
                &&& (match spec_match_required(*p, lo as nat, toks@, i as int) {
                    Some(j) => spec_match_extra(*p, (hi - lo) as nat, toks@, j) == (
                        (filled - lo) as nat,
                        next as int,
                    ),
                    None => false,
                })
            },
            None => spec_match_required(*p, lo as nat, toks@, i as int) is None,
        }),
{
    match match_required(p, lo, toks, i) {
        Some(j) => {
            let (extra, next) = match_extra(p, hi - lo, toks, j);
            proof {
                lemma_prefix_instance_legal((lo + extra) as nat, lo as nat, hi as nat);
                lemma_match_required_bounds(*p, lo as nat, toks@, i as int);
            }
            Some((lo + extra, next))
        },
        None => None,
    }
}

proof fn lemma_match_required_bounds(p: PrimitiveValue, need: nat, toks: Seq<InputToken>, i: int)
    requires
        spec_match_required(p, need, toks, i) is Some,
    ensures
        i <= spec_match_required(p, need, toks, i)->Some_0,
    decreases need,
{
    if need > 0 {
        match spec_match_primitive(p, toks, i) {
            Some(j) => {
                if i < j <= toks.len() {
                    lemma_match_required_bounds(p, (need - 1) as nat, toks, j);
                }
            },
            None => {},
        }
    }
}

/// Checks whether a slot map is a legal instance of `{lo,hi}`.
pub fn check_range_instance(slots: &Vec<bool>, lo: u64, hi: u64) -> (r: bool)
    ensures
        r == spec_legal_instance(slots@, lo as nat, hi as nat),
{
    if slots.len() as u64 != hi {
        // a differing length cannot be an instance of the range
        proof {
            assert(slots@.len() != hi as nat);
        }
        return false;
    }
    let n = slots.len();
    // every required slot must be filled
    let mut s: usize = 0;
    while s < n && (s as u64) < lo
        invariant
            s <= n,
            (s as u64) <= lo,
            n == slots@.len(),
            forall|x: int| 0 <= x < s ==> slots@[x],
        decreases n - s,
    {
        if !slots[s] {
            return false;
        }
        s = s + 1;
    }
    // find the first skipped slot at or after the required ones
    let start: usize = s;
    let ghost start_is_lo = (start as u64 == lo) || (start == n);
    let mut ff: usize = start;
    while ff < n && slots[ff]
        invariant
            start <= ff <= n,
            n == slots@.len(),
            forall|x: int| start <= x < ff ==> slots@[x],
        decreases n - ff,
    {
        ff = ff + 1;
    }
    // nothing after it may be filled
    let mut t: usize = if ff < n {
        ff + 1
    } else {
        n
    };
    let ghost first_false = ff as int;
    while t < n
        invariant
            start <= ff <= n,
            t <= n,
            ff == n ==> t == n,
            ff < n ==> ff < t,
            n == slots@.len(),
            start_is_lo == ((start as u64 == lo) || (start == n)),
            start_is_lo,
            first_false == ff as int,
            ff < n ==> !slots@[ff as int],
            forall|x: int| first_false < x < t ==> !slots@[x],
        decreases n - t,
    {
        if slots[t] {
            proof {
                assert(ff < n);
                assert(start < n);
                assert(start as u64 == lo);
                assert(lo as nat <= first_false);
                assert(!slots@[first_false]);
                assert(slots@[t as int]);
                assert(!spec_legal_instance(slots@, lo as nat, hi as nat));
            }
            return false;
        }
        t = t + 1;
    }
    proof {
        assert forall|a: int, b: int|
            (lo as nat) <= a < b < slots@.len() && !slots@[a] implies !slots@[b] by {
            if a < first_false {
                assert(slots@[a]);
            }
        }
    }
    true
}

} // verus!
