//! Sequences: the places of what a filter keeps.
use vstd::prelude::*;

verus! {

/// Whether `at` holds places below `n`, from the first to the last.
pub open spec fn ascending(at: Seq<int>, n: int) -> bool {
    &&& forall|k: int| 0 <= k < at.len() ==> 0 <= #[trigger] at[k] < n
    &&& forall|a: int, b: int| 0 <= a < b < at.len() ==> #[trigger] at[a] < #[trigger] at[b]
}

/// A filter keeps, in order, what it holds of, and nothing else: the places of
/// what is kept ascend, and every place whose item it holds of is among them.
pub proof fn a_filter_keeps_what_passes<A>(s: Seq<A>, pass: spec_fn(A) -> bool) -> (at: Seq<int>)
    ensures
        at.len() == s.filter(pass).len(),
        ascending(at, s.len() as int),
        forall|k: int|
            #![trigger at[k]]
            #![trigger s.filter(pass)[k]]
            0 <= k < at.len() ==> s.filter(pass)[k] == s[at[k]] && pass(s[at[k]]),
        forall|i: int| 0 <= i < s.len() && pass(#[trigger] s[i]) ==> at.contains(i),
    decreases s.len(),
{
    reveal(Seq::filter);
    if s.len() == 0 {
        Seq::empty()
    } else {
        let rest = s.drop_last();
        let before = a_filter_keeps_what_passes(rest, pass);
        let last = s.len() - 1;
        if pass(s.last()) {
            let at = before.push(last);
            assert forall|i: int| 0 <= i < s.len() && pass(#[trigger] s[i]) implies at.contains(
                i,
            ) by {
                if i < last {
                    assert(pass(rest[i]));
                    let k = choose|k: int| 0 <= k < before.len() && before[k] == i;
                    assert(at[k] == i);
                } else {
                    assert(at[before.len() as int] == i);
                }
            }
            assert forall|k: int|
                #![trigger at[k]]
                #![trigger s.filter(pass)[k]]
                0 <= k < at.len() implies s.filter(pass)[k] == s[at[k]] && pass(s[at[k]]) by {
                if k < before.len() {
                    assert(rest.filter(pass)[k] == rest[before[k]]);
                }
            }
            at
        } else {
            assert forall|i: int| 0 <= i < s.len() && pass(#[trigger] s[i]) implies before.contains(
                i,
            ) by {
                assert(pass(rest[i]));
            }
            assert forall|k: int|
                #![trigger before[k]]
                #![trigger s.filter(pass)[k]]
                0 <= k < before.len() implies s.filter(pass)[k] == s[before[k]] && pass(
                s[before[k]],
            ) by {
                assert(rest.filter(pass)[k] == rest[before[k]]);
            }
            before
        }
    }
}

} // verus!
