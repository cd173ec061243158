//! The mark allocator and the assignment of marks to windows.
//!
//! Marks come from a fixed, finite, ordered alphabet and are handed out one
//! at a time, each at most once per refresh. Once the alphabet is exhausted
//! every further request is answered with nothing: windows beyond alphabet
//! capacity simply stay unmarked, by design and not as an error.

use vstd::prelude::*;

verus! {

broadcast use vstd::seq_lib::group_seq_properties;

/// The default mark alphabet, in assignment order: the top letter row of a
/// QWERTY keyboard.
pub open spec fn default_marks() -> Seq<char> {
    seq!['Q', 'W', 'E', 'R', 'T', 'Y', 'U', 'I', 'O', 'P']
}

/// Builds the default alphabet as a vector.
pub fn default_alphabet() -> (a: Vec<char>)
    ensures
        a@ == default_marks(),
{
    let mut v: Vec<char> = Vec::new();
    v.push('Q');
    v.push('W');
    v.push('E');
    v.push('R');
    v.push('T');
    v.push('Y');
    v.push('U');
    v.push('I');
    v.push('O');
    v.push('P');
    proof {
        assert(v@ =~= default_marks());
    }
    v
}

/// Hands out the characters of one alphabet in order, at most once each,
/// scoped to a single refresh pass.
pub struct MarkAllocator {
    pub alphabet: Vec<char>,
    pub next: usize,
}

impl MarkAllocator {
    pub open spec fn wf(&self) -> bool {
        self.next <= self.alphabet@.len()
    }

    /// The marks not yet handed out, in the order they will come.
    pub open spec fn remaining(&self) -> Seq<char> {
        self.alphabet@.skip(self.next as int)
    }

    pub fn new(alphabet: Vec<char>) -> (a: MarkAllocator)
        ensures
            a.wf(),
            a.remaining() == alphabet@,
    {
        let a = MarkAllocator { alphabet, next: 0 };
        proof {
            assert(a.remaining() =~= a.alphabet@);
        }
        a
    }

    /// Takes the next mark: the first remaining character, or nothing once
    /// the alphabet is exhausted.
    pub fn take(&mut self) -> (m: Option<char>)
        requires
            old(self).wf(),
        ensures
            final(self).wf(),
            old(self).remaining().len() > 0 ==> m == Some(old(self).remaining()[0]),
            old(self).remaining().len() > 0 ==> final(self).remaining() == old(
                self,
            ).remaining().drop_first(),
            old(self).remaining().len() == 0 ==> m is None,
            old(self).remaining().len() == 0 ==> *final(self) == *old(self),
    {
        if self.next < self.alphabet.len() {
            let c = self.alphabet[self.next];
            self.next += 1;
            proof {
                assert(self.remaining() =~= old(self).remaining().drop_first());
            }
            Some(c)
        } else {
            None
        }
    }
}

/// The assignment: window `k` of `w`, in traversal order, is paired with
/// mark `k` of the alphabet; windows past the end of the alphabet get
/// nothing.
pub open spec fn pairs_spec(w: Seq<i64>, a: Seq<char>) -> Seq<(i64, char)> {
    Seq::new(
        if w.len() <= a.len() {
            w.len()
        } else {
            a.len()
        },
        |k: int| (w[k], a[k]),
    )
}

/// Pairs the collected windows, in order, with the allocator's remaining
/// marks; windows beyond the remaining marks stay unmarked.
#[verifier::loop_isolation(false)]
pub fn assign_marks(windows: &Vec<i64>, alloc: &mut MarkAllocator) -> (pairs: Vec<(i64, char)>)
    requires
        old(alloc).wf(),
    ensures
        final(alloc).wf(),
        pairs@ == pairs_spec(windows@, old(alloc).remaining()),
        final(alloc).remaining() == old(alloc).remaining().skip(pairs@.len() as int),
{
    let ghost rem = old(alloc).remaining();
    let mut pairs: Vec<(i64, char)> = Vec::new();
    let mut i: usize = 0;
    while i < windows.len()
        invariant
            i <= windows@.len(),
            alloc.wf(),
            pairs@.len() == if i <= rem.len() {
                i as int
            } else {
                rem.len() as int
            },
            pairs@ == pairs_spec(windows@.take(i as int), rem),
            alloc.remaining() == rem.skip(pairs@.len() as int),
        decreases windows@.len() - i,
    {
        let ghost p_old = pairs@;
        match alloc.take() {
            Some(m) => {
                proof {
                    assert(alloc.remaining() =~= rem.skip(p_old.len() as int).drop_first());
                    assert(rem.skip(p_old.len() as int).drop_first() =~= rem.skip(
                        p_old.len() as int + 1,
                    ));
                    assert(m == rem[p_old.len() as int]);
                }
                pairs.push((windows[i], m));
                proof {
                    assert(pairs@ =~= pairs_spec(windows@.take(i as int + 1), rem));
                }
            },
            None => {
                proof {
                    assert(pairs@ =~= pairs_spec(windows@.take(i as int + 1), rem));
                }
            },
        }
        i += 1;
    }
    proof {
        assert(windows@.take(windows@.len() as int) =~= windows@);
    }
    pairs
}

/// With distinct characters in the alphabet — as in the default one — no two
/// windows of one refresh receive the same mark.
pub proof fn lemma_marks_distinct(w: Seq<i64>, a: Seq<char>)
    requires
        forall|i: int, j: int| 0 <= i < j < a.len() ==> a[i] != a[j],
    ensures
        forall|i: int, j: int|
            0 <= i < j < pairs_spec(w, a).len() ==> pairs_spec(w, a)[i].1 != pairs_spec(w, a)[j].1,
{
}

/// Each marked window's mark is the alphabet character at the window's
/// 0-indexed position in full traversal order; exactly the first `a.len()`
/// windows are marked when there are more windows than marks, and all of
/// them when there are not.
pub proof fn lemma_mark_positions(w: Seq<i64>, a: Seq<char>)
    ensures
        w.len() <= a.len() ==> pairs_spec(w, a).len() == w.len(),
        w.len() > a.len() ==> pairs_spec(w, a).len() == a.len(),
        forall|k: int|
            0 <= k < pairs_spec(w, a).len() ==> #[trigger] pairs_spec(w, a)[k] == (w[k], a[k]),
{
}

} // verus!
