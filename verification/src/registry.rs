//! The identifier registry for one compilation run: allocates stable,
//! collision-free names for synthesized types and deduplicates
//! structurally identical definitions, so that one structure never gets
//! two names and one name never stands for two structures.

use vstd::prelude::*;
use crate::text::dec_of;

verus! {

/// One allocation: a name and the structural key of the definition it
/// stands for.
pub struct RegEntry {
    pub name: String,
    pub shape: String,
}

/// The model of an allocation.
#[verifier::ext_equal]
pub struct RegS {
    pub name: Seq<char>,
    pub shape: Seq<char>,
}

impl View for RegEntry {
    type V = RegS;

    open spec fn view(&self) -> RegS {
        RegS { name: self.name@, shape: self.shape@ }
    }
}

/// The registry of names allocated within one compilation run.
pub struct Registry {
    pub entries: Vec<RegEntry>,
}

/// The models of the allocations.
pub open spec fn regs_of(entries: Seq<RegEntry>) -> Seq<RegS> {
    entries.map_values(|e: RegEntry| e@)
}

/// Whether some allocation already uses the name.
pub open spec fn reg_has_name(rs: Seq<RegS>, x: Seq<char>) -> bool {
    exists|j: int| 0 <= j < rs.len() && rs[j].name == x
}

/// The name allocated for a structural key, if any: the first allocation
/// with that key.
pub open spec fn reg_find_shape(rs: Seq<RegS>, key: Seq<char>) -> Option<Seq<char>>
    decreases rs.len(),
{
    if rs.len() == 0 {
        None
    } else if rs[0].shape == key {
        Some(rs[0].name)
    } else {
        reg_find_shape(rs.drop_first(), key)
    }
}

/// The candidate name at disambiguation step `k`: the base itself first,
/// then the base followed by 1, 2, and so on.
pub open spec fn candidate(base: Seq<char>, k: nat) -> Seq<char> {
    if k == 0 {
        base
    } else {
        base + dec_of(k)
    }
}

/// The first free candidate at or after step `k`, searching at most
/// `fuel` steps.
pub open spec fn spec_fresh_from(names: Seq<RegS>, base: Seq<char>, k: nat, fuel: nat) -> Seq<
    char,
>
    decreases fuel,
{
    if fuel == 0 {
        candidate(base, k)
    } else if !reg_has_name(names, candidate(base, k)) {
        candidate(base, k)
    } else {
        spec_fresh_from(names, base, (k + 1) as nat, (fuel - 1) as nat)
    }
}

/// The name the registry hands out for a new base: the base itself on
/// first use, and the first free numbered variant on repeated requests.
pub open spec fn spec_fresh_name(rs: Seq<RegS>, base: Seq<char>) -> Seq<char> {
    spec_fresh_from(rs, base, 0, rs.len() + 1)
}

/// A decimal rendering is never empty.
pub proof fn lemma_dec_of_len(n: nat)
    ensures
        dec_of(n).len() >= 1,
        n >= 10 ==> dec_of(n).len() >= 2,
    decreases n,
{
    if n >= 10 {
        lemma_dec_of_len(n / 10);
    }
}

proof fn lemma_digit_char_injective(a: nat, b: nat)
    requires
        a < 10,
        b < 10,
        crate::text::digit_char(a as int) == crate::text::digit_char(b as int),
    ensures
        a == b,
{
}

/// Two different numbers never render to the same decimal text.
pub proof fn lemma_dec_of_injective(a: nat, b: nat)
    requires
        dec_of(a) == dec_of(b),
    ensures
        a == b,
    decreases a + b,
{
    lemma_dec_of_len(a);
    lemma_dec_of_len(b);
    if a < 10 && b < 10 {
        assert(dec_of(a)[0] == crate::text::digit_char(a as int));
        assert(dec_of(b)[0] == crate::text::digit_char(b as int));
        lemma_digit_char_injective(a, b);
    } else if a < 10 {
        assert(dec_of(a).len() == 1);
        assert(dec_of(b).len() >= 2);
    } else if b < 10 {
        assert(dec_of(b).len() == 1);
        assert(dec_of(a).len() >= 2);
    } else {
        assert(dec_of(a).last() == crate::text::digit_char((a % 10) as int));
        assert(dec_of(b).last() == crate::text::digit_char((b % 10) as int));
        lemma_digit_char_injective((a % 10) as nat, (b % 10) as nat);
        assert(dec_of(a).drop_last() =~= dec_of(a / 10));
        assert(dec_of(b).drop_last() =~= dec_of(b / 10));
        lemma_dec_of_injective(a / 10, b / 10);
    }
}

/// A hexadecimal rendering is never empty.
pub proof fn lemma_hex_upper_len(n: nat)
    ensures
        crate::text::hex_upper_of(n).len() >= 1,
        n >= 16 ==> crate::text::hex_upper_of(n).len() >= 2,
    decreases n,
{
    if n >= 16 {
        lemma_hex_upper_len(n / 16);
    }
}

proof fn lemma_hex_digit_injective(a: nat, b: nat)
    requires
        a < 16,
        b < 16,
        crate::text::digit_char_upper(a as int) == crate::text::digit_char_upper(b as int),
    ensures
        a == b,
{
}

/// Two different numbers never render to the same hexadecimal text.
pub proof fn lemma_hex_upper_injective(a: nat, b: nat)
    requires
        crate::text::hex_upper_of(a) == crate::text::hex_upper_of(b),
    ensures
        a == b,
    decreases a + b,
{
    lemma_hex_upper_len(a);
    lemma_hex_upper_len(b);
    if a < 16 && b < 16 {
        assert(crate::text::hex_upper_of(a)[0] == crate::text::digit_char_upper(a as int));
        assert(crate::text::hex_upper_of(b)[0] == crate::text::digit_char_upper(b as int));
        lemma_hex_digit_injective(a, b);
    } else if a < 16 {
        assert(crate::text::hex_upper_of(a).len() == 1);
        assert(crate::text::hex_upper_of(b).len() >= 2);
    } else if b < 16 {
        assert(crate::text::hex_upper_of(b).len() == 1);
        assert(crate::text::hex_upper_of(a).len() >= 2);
    } else {
        assert(crate::text::hex_upper_of(a).last() == crate::text::digit_char_upper(
            (a % 16) as int,
        ));
        assert(crate::text::hex_upper_of(b).last() == crate::text::digit_char_upper(
            (b % 16) as int,
        ));
        lemma_hex_digit_injective((a % 16) as nat, (b % 16) as nat);
        assert(crate::text::hex_upper_of(a).drop_last() =~= crate::text::hex_upper_of(a / 16));
        assert(crate::text::hex_upper_of(b).drop_last() =~= crate::text::hex_upper_of(b / 16));
        lemma_hex_upper_injective(a / 16, b / 16);
    }
}

/// Components at different positions of one construct get different
/// naming prefixes: the generated position names never collide.
pub proof fn lemma_fork_index_distinct(ctx: crate::resolve::CtxS, i: nat, j: nat)
    requires
        i != j,
    ensures
        crate::resolve::s_fork_index(ctx, i).hint != crate::resolve::s_fork_index(ctx, j).hint,
{
    let hi = crate::resolve::s_fork_index(ctx, i).hint;
    let hj = crate::resolve::s_fork_index(ctx, j).hint;
    if hi == hj {
        assert(crate::text::hex_upper_of(i) =~= hi.skip(ctx.hint.len() as int + 1));
        assert(crate::text::hex_upper_of(j) =~= hj.skip(ctx.hint.len() as int + 1));
        lemma_hex_upper_injective(i, j);
    }
}

/// Different disambiguation steps give different candidate names.
pub proof fn lemma_candidate_injective(base: Seq<char>, j: nat, k: nat)
    requires
        j < k,
    ensures
        candidate(base, j) != candidate(base, k),
{
    lemma_dec_of_len(k);
    if j == 0 {
        assert(candidate(base, k).len() > base.len());
    } else {
        lemma_dec_of_len(j);
        if candidate(base, j) == candidate(base, k) {
            assert(dec_of(j) =~= candidate(base, j).skip(base.len() as int));
            assert(dec_of(k) =~= candidate(base, k).skip(base.len() as int));
            lemma_dec_of_injective(j, k);
        }
    }
}

/// If the first `k` candidates are all taken, the registry holds at least
/// `k` allocations.
proof fn lemma_candidates_bound(rs: Seq<RegS>, base: Seq<char>, k: nat)
    requires
        forall|j: nat| j < k ==> reg_has_name(rs, #[trigger] candidate(base, j)),
    ensures
        k <= rs.len(),
    decreases k,
{
    if k > 0 {
        let last = candidate(base, (k - 1) as nat);
        assert(reg_has_name(rs, last));
        let m = choose|m: int| 0 <= m < rs.len() && rs[m].name == last;
        let rs2 = rs.remove(m);
        assert forall|j: nat| j < (k - 1) as nat implies reg_has_name(
            rs2,
            #[trigger] candidate(base, j),
        ) by {
            assert(reg_has_name(rs, candidate(base, j)));
            let p = choose|p: int| 0 <= p < rs.len() && rs[p].name == candidate(base, j);
            lemma_candidate_injective(base, j, (k - 1) as nat);
            assert(p != m);
            if p < m {
                assert(rs2[p] == rs[p]);
            } else {
                assert(rs2[p - 1] == rs[p]);
            }
        }
        lemma_candidates_bound(rs2, base, (k - 1) as nat);
    }
}

impl Registry {
    /// Names are never allocated twice.
    pub open spec fn wf(&self) -> bool {
        forall|i: int, j: int|
            0 <= i < j < regs_of(self.entries@).len() ==> regs_of(self.entries@)[i].name
                != regs_of(self.entries@)[j].name
    }

    /// A registry with nothing allocated.
    pub fn new() -> (r: Registry)
        ensures
            r.wf(),
            regs_of(r.entries@) == Seq::<RegS>::empty(),
    {
        let r = Registry { entries: Vec::new() };
        proof {
            assert(regs_of(r.entries@) =~= Seq::<RegS>::empty());
        }
        r
    }

    fn contains_name(&self, x: &String) -> (r: bool)
        ensures
            r == reg_has_name(regs_of(self.entries@), x@),
    {
        let mut j: usize = 0;
        while j < self.entries.len()
            invariant
                j <= self.entries@.len(),
                forall|k: int| 0 <= k < j ==> regs_of(self.entries@)[k].name != x@,
            decreases self.entries@.len() - j,
        {
            if self.entries[j].name == *x {
                proof {
                    assert(regs_of(self.entries@)[j as int].name == x@);
                }
                return true;
            }
            j = j + 1;
        }
        false
    }

    fn find_shape(&self, key: &String) -> (r: Option<String>)
        ensures
            (match r {
                Some(n) => reg_find_shape(regs_of(self.entries@), key@) == Some(n@),
                None => reg_find_shape(regs_of(self.entries@), key@) is None,
            }),
    {
        let ghost rs = regs_of(self.entries@);
        proof {
            assert(rs.skip(0) =~= rs);
        }
        let mut j: usize = 0;
        while j < self.entries.len()
            invariant
                j <= self.entries@.len(),
                rs == regs_of(self.entries@),
                reg_find_shape(rs, key@) == reg_find_shape(rs.skip(j as int), key@),
            decreases self.entries@.len() - j,
        {
            proof {
                assert(rs.skip(j as int)[0] == rs[j as int]);
                assert(rs.skip(j as int).drop_first() =~= rs.skip(j + 1));
            }
            if self.entries[j].shape == *key {
                let name = self.entries[j].name.clone();
                proof {
                    assert(reg_find_shape(rs.skip(j as int), key@) == Some(rs[j as int].name));
                }
                return Some(name);
            }
            j = j + 1;
        }
        proof {
            assert(rs.skip(rs.len() as int) =~= Seq::<RegS>::empty());
        }
        None
    }

    fn fresh_name(&self, base: &str) -> (r: String)
        ensures
            r@ == spec_fresh_name(regs_of(self.entries@), base@),
            !reg_has_name(regs_of(self.entries@), r@),
    {
        let ghost rs = regs_of(self.entries@);
        let n = self.entries.len();
        let mut k: usize = 0;
        loop
            invariant
                k <= n,
                n == rs.len(),
                rs == regs_of(self.entries@),
                forall|j: nat| j < k as nat ==> reg_has_name(rs, #[trigger] candidate(base@, j)),
                spec_fresh_name(rs, base@) == spec_fresh_from(
                    rs,
                    base@,
                    k as nat,
                    (n + 1 - k) as nat,
                ),
            decreases n - k,
        {
            let cand: String = if k == 0 {
                let mut s = String::new();
                s.append(base);
                s
            } else {
                let mut s = String::new();
                s.append(base);
                let digits = crate::text::u64_to_dec(k as u64);
                s.append(digits.as_str());
                s
            };
            proof {
                assert(cand@ == candidate(base@, k as nat));
            }
            if !self.contains_name(&cand) {
                proof {
                    assert(spec_fresh_from(rs, base@, k as nat, (n + 1 - k) as nat) == cand@);
                }
                return cand;
            }
            if k == n {
                // never reached: more candidates were taken than names exist
                proof {
                    lemma_candidates_bound(rs, base@, (n + 1) as nat);
                    assert(false);
                }
                return cand;
            }
            k = k + 1;
        }
    }

    /// Returns the name to declare a definition with the given structural
    /// key under: the name already allocated for that key, if any — one
    /// structure never gets two names — or else a name no allocation
    /// uses: the base on its first use, a numbered variant afterwards.
    pub fn propose_ident(&mut self, base: &str, shape_key: &String) -> (r: String)
        requires
            old(self).wf(),
        ensures
            final(self).wf(),
            (match reg_find_shape(regs_of(old(self).entries@), shape_key@) {
                Some(n) => {
                    &&& r@ == n
                    &&& regs_of(final(self).entries@) == regs_of(old(self).entries@)
                },
                None => {
                    &&& r@ == spec_fresh_name(regs_of(old(self).entries@), base@)
                    &&& !reg_has_name(regs_of(old(self).entries@), r@)
                    &&& regs_of(final(self).entries@) == regs_of(old(self).entries@).push(
                        RegS { name: r@, shape: shape_key@ },
                    )
                },
            }),
    {
        match self.find_shape(shape_key) {
            Some(n) => n,
            None => {
                let name = self.fresh_name(base.clone());
                let ghost old_rs = regs_of(self.entries@);
                let entry = RegEntry { name: name.clone(), shape: shape_key.clone() };
                self.entries.push(entry);
                proof {
                    assert(regs_of(self.entries@) =~~= old_rs.push(
                        RegS { name: name@, shape: shape_key@ },
                    ));
                    assert forall|i: int, j: int|
                        0 <= i < j < regs_of(self.entries@).len() implies regs_of(
                        self.entries@,
                    )[i].name != regs_of(self.entries@)[j].name by {
                        if j == regs_of(self.entries@).len() - 1 {
                            assert(!reg_has_name(old_rs, name@));
                            assert(regs_of(self.entries@)[i] == old_rs[i]);
                        }
                    }
                }
                name
            },
        }
    }

    /// One name never stands for two structures: distinct entries carry
    /// distinct names, so equal names mean the very same allocation.
    pub proof fn lemma_no_name_collision(&self, i: int, j: int)
        requires
            self.wf(),
            0 <= i < regs_of(self.entries@).len(),
            0 <= j < regs_of(self.entries@).len(),
            regs_of(self.entries@)[i].name == regs_of(self.entries@)[j].name,
        ensures
            i == j,
            regs_of(self.entries@)[i].shape == regs_of(self.entries@)[j].shape,
    {
    }
}

} // verus!
