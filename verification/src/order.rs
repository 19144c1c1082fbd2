//! Lexicographic ordering of strings and a sort used by the read endpoints.
//!
//! Lists, tasks and backup bundles are presented in a deterministic order:
//! rows are sorted by an opaque string key (`list_order`, `task_order`, a row
//! id, a display name) compared lexicographically by character.

use vstd::prelude::*;
use vstd::multiset::Multiset;
use vstd::seq_lib::lemma_multiset_commutative;
use vstd::string::StrSliceExecFns;

verus! {

broadcast use vstd::seq_lib::group_to_multiset_ensures;

/// Lexicographic "less or equal" on character sequences: the shorter prefix
/// comes first, otherwise the first differing character decides.
pub open spec fn lex_le(a: Seq<char>, b: Seq<char>) -> bool
    decreases a.len(),
{
    if a.len() == 0 {
        true
    } else if b.len() == 0 {
        false
    } else if (a[0] as u32) < (b[0] as u32) {
        true
    } else if (b[0] as u32) < (a[0] as u32) {
        false
    } else {
        lex_le(a.drop_first(), b.drop_first())
    }
}

/// `lex_le` holds of every sequence and itself.
pub proof fn lemma_lex_le_refl(a: Seq<char>)
    ensures
        lex_le(a, a),
    decreases a.len(),
{
    if a.len() > 0 {
        lemma_lex_le_refl(a.drop_first());
    }
}

/// Any two sequences are comparable under `lex_le`.
pub proof fn lemma_lex_le_total(a: Seq<char>, b: Seq<char>)
    ensures
        lex_le(a, b) || lex_le(b, a),
    decreases a.len(),
{
    if a.len() == 0 {
    } else if b.len() == 0 {
    } else if (a[0] as u32) < (b[0] as u32) {
    } else if (b[0] as u32) < (a[0] as u32) {
    } else {
        lemma_lex_le_total(a.drop_first(), b.drop_first());
    }
}

/// `lex_le` is transitive.
pub proof fn lemma_lex_le_trans(a: Seq<char>, b: Seq<char>, c: Seq<char>)
    requires
        lex_le(a, b),
        lex_le(b, c),
    ensures
        lex_le(a, c),
    decreases a.len(),
{
    if a.len() == 0 {
    } else if b.len() == 0 {
    } else if c.len() == 0 {
    } else {
        if !((a[0] as u32) < (b[0] as u32)) && !((b[0] as u32) < (a[0] as u32))
            && !((b[0] as u32) < (c[0] as u32)) && !((c[0] as u32) < (b[0] as u32)) {
            lemma_lex_le_trans(a.drop_first(), b.drop_first(), c.drop_first());
        }
    }
}

/// Executable lexicographic comparison of two string slices.
pub fn str_le(a: &str, b: &str) -> (r: bool)
    ensures
        r == lex_le(a@, b@),
    decreases a@.len(),
{
    let an = a.unicode_len();
    let bn = b.unicode_len();
    if an == 0 {
        true
    } else if bn == 0 {
        false
    } else {
        let ca = a.get_char(0) as u32;
        let cb = b.get_char(0) as u32;
        if ca < cb {
            true
        } else if cb < ca {
            false
        } else {
            let ar = a.substring_char(1, an);
            let br = b.substring_char(1, bn);
            proof {
                assert(ar@ =~= a@.drop_first());
                assert(br@ =~= b@.drop_first());
            }
            str_le(ar, br)
        }
    }
}

/// A row with a string sort key.
pub trait OrderKey: Sized {
    /// The key the row is ordered by.
    spec fn key(&self) -> Seq<char>;

    /// Compares the keys of two rows.
    fn key_le(&self, other: &Self) -> (r: bool)
        ensures
            r == lex_le(self.key(), other.key()),
    ;
}

/// The rows appear in non-decreasing key order.
pub open spec fn sorted_keys<T: OrderKey>(s: Seq<T>) -> bool {
    forall|i: int, j: int| 0 <= i < j < s.len() ==> lex_le(#[trigger] s[i].key(), #[trigger] s[j].key())
}

/// One step of building a filtered prefix: taking one more row appends it
/// to the filtered sequence exactly when it satisfies the predicate.
pub proof fn lemma_filter_take_step<T>(s: Seq<T>, pred: spec_fn(T) -> bool, i: int)
    requires
        0 <= i < s.len(),
    ensures
        pred(s[i]) ==> s.take(i + 1).filter(pred) == s.take(i).filter(pred).push(s[i]),
        !pred(s[i]) ==> s.take(i + 1).filter(pred) == s.take(i).filter(pred),
{
    reveal_with_fuel(Seq::filter, 2);
    assert(s.take(i + 1).drop_last() =~= s.take(i));
    assert(s.take(i + 1).last() == s[i]);
}

/// Two rows of a sorted prefix are ordered.
proof fn lemma_sorted_prefix<T: OrderKey>(s: Seq<T>, m: int, k: int, l: int)
    requires
        sorted_keys::<T>(s.take(m)),
        0 <= k < l < m <= s.len(),
    ensures
        lex_le(s[k].key(), s[l].key()),
{
    assert(s.take(m)[k] == s[k]);
    assert(s.take(m)[l] == s[l]);
}

/// Inserting an element anywhere adds exactly it to the multiset of rows.
proof fn lemma_to_multiset_insert<T>(s: Seq<T>, p: int, x: T)
    requires
        0 <= p <= s.len(),
    ensures
        s.insert(p, x).to_multiset() == s.to_multiset().insert(x),
{
    let l = s.take(p);
    let r = s.skip(p);
    assert(s.insert(p, x) =~= l + (seq![x] + r));
    assert(s =~= l + r);
    lemma_multiset_commutative(l, seq![x] + r);
    lemma_multiset_commutative(seq![x], r);
    lemma_multiset_commutative(l, r);
    assert(seq![x] =~= Seq::empty().push(x));
    assert(seq![x].to_multiset() =~= Multiset::empty().insert(x));
    assert(s.insert(p, x).to_multiset() =~= s.to_multiset().insert(x));
}

/// Taking a row out and putting it back elsewhere keeps the multiset of rows.
proof fn lemma_remove_insert_multiset<T>(s: Seq<T>, i: int, p: int)
    requires
        0 <= i < s.len(),
        0 <= p <= s.len() - 1,
    ensures
        s.remove(i).insert(p, s[i]).to_multiset() == s.to_multiset(),
{
    let x = s[i];
    assert(s.remove(i).to_multiset() =~= s.to_multiset().remove(x));
    lemma_to_multiset_insert(s.remove(i), p, x);
    assert(s.contains(x));
    assert(s.to_multiset().count(x) > 0);
    assert(s.to_multiset().remove(x).insert(x) =~= s.to_multiset());
}

/// Sorts the rows by key with an insertion sort: the result is ordered and
/// holds exactly the rows of the input.
pub fn sort_by_key<T: OrderKey>(v: &mut Vec<T>)
    ensures
        sorted_keys::<T>(final(v)@),
        final(v)@.to_multiset() == old(v)@.to_multiset(),
        final(v)@.len() == old(v)@.len(),
{
    let ghost orig = v@;
    let n = v.len();
    if n <= 1 {
        return;
    }
    let mut i: usize = 1;
    while i < n
        invariant
            1 <= i <= n,
            n == v@.len(),
            sorted_keys::<T>(v@.take(i as int)),
            v@.to_multiset() == orig.to_multiset(),
        decreases n - i,
    {
        let ghost pre = v@;
        let mut p: usize = 0;
        while p < i
            invariant_except_break
                p <= i < v@.len(),
                v@ == pre,
                forall|k: int| 0 <= k < p ==> lex_le(#[trigger] v@[k].key(), v@[i as int].key()),
            ensures
                p <= i,
                v@ == pre,
                forall|k: int| 0 <= k < p ==> lex_le(#[trigger] v@[k].key(), v@[i as int].key()),
                p < i ==> !lex_le(v@[p as int].key(), v@[i as int].key()),
            decreases i - p,
        {
            let keep_going = v[p].key_le(&v[i]);
            if keep_going {
                p = p + 1;
            } else {
                break;
            }
        }
        let x = v.remove(i);
        v.insert(p, x);
        proof {
            let ii = i as int;
            let pp = p as int;
            let cur = v@;
            assert(cur == pre.remove(ii).insert(pp, pre[ii]));
            lemma_remove_insert_multiset(pre, ii, pp);
            let xk = pre[ii].key();
            if pp < ii {
                lemma_lex_le_total(pre[pp].key(), xk);
            }
            assert forall|k: int, l: int| 0 <= k < l < ii + 1 implies
                lex_le(#[trigger] cur[k].key(), #[trigger] cur[l].key()) by {
                if l < pp {
                    assert(cur[k] == pre[k] && cur[l] == pre[l]);
                    lemma_sorted_prefix(pre, ii, k, l);
                } else if l == pp {
                    assert(cur[k] == pre[k]);
                    assert(lex_le(pre[k].key(), xk));
                } else if k < pp {
                    assert(cur[k] == pre[k] && cur[l] == pre[l - 1]);
                    assert(pp <= l - 1 < ii);
                    if k < l - 1 {
                        lemma_sorted_prefix(pre, ii, k, l - 1);
                    }
                } else if k == pp {
                    assert(cur[k].key() == xk && cur[l] == pre[l - 1]);
                    assert(lex_le(xk, pre[pp].key()));
                    if pp < l - 1 {
                        lemma_sorted_prefix(pre, ii, pp, l - 1);
                        lemma_lex_le_trans(xk, pre[pp].key(), pre[l - 1].key());
                    }
                } else {
                    assert(cur[k] == pre[k - 1] && cur[l] == pre[l - 1]);
                    lemma_sorted_prefix(pre, ii, k - 1, l - 1);
                }
            }
            assert(sorted_keys::<T>(cur.take(ii + 1)));
        }
        i = i + 1;
    }
    proof {
        assert(v@.take(n as int) =~= v@);
    }
}

} // verus!
