//! Literal text search, and the interactive query-replace state machine.
//!
//! Search is plain byte-wise substring search. Query-replace visits matches
//! in forward order from the starting cursor, wraps around to the buffer's
//! start (exposing a wrapped indicator), and stops once the next match would
//! reach the starting position again — independent of the skip or replace
//! choice made at each match.

use vstd::prelude::*;
use crate::editor::Editor;

verus! {

/// The pattern `p` occurs in `s` at offset `i`.
pub open spec fn is_match_at(s: Seq<u8>, p: Seq<u8>, i: int) -> bool {
    &&& 0 <= i
    &&& i + p.len() <= s.len()
    &&& s.subrange(i, i + p.len()) == p
}

/// The first offset in `[lo, hi)` where `p` occurs in `s` (the whole match
/// must fit before `hi`), if any.
pub open spec fn first_match(s: Seq<u8>, p: Seq<u8>, lo: int, hi: int) -> Option<int>
    decreases hi - lo,
{
    if lo < 0 || lo + p.len() > hi {
        None
    } else if is_match_at(s, p, lo) {
        Some(lo)
    } else if lo < hi {
        first_match(s, p, lo + 1, hi)
    } else {
        None
    }
}

/// Facts about `first_match`: a hit is a match with none earlier; a miss
/// means no match fits in the window.
pub proof fn lemma_first_match(s: Seq<u8>, p: Seq<u8>, lo: int, hi: int)
    requires
        0 <= lo,
        hi <= s.len(),
    ensures
        ({
            match first_match(s, p, lo, hi) {
                Some(i) => {
                    &&& lo <= i
                    &&& i + p.len() <= hi
                    &&& is_match_at(s, p, i)
                    &&& forall|j: int| lo <= j < i ==> !is_match_at(s, p, j)
                },
                None => forall|j: int| lo <= j && j + p.len() <= hi ==> !is_match_at(s, p, j),
            }
        }),
    decreases hi - lo,
{
    if lo < 0 || lo + p.len() > hi {
    } else if is_match_at(s, p, lo) {
    } else if lo < hi {
        lemma_first_match(s, p, lo + 1, hi);
    }
}

/// Tests whether `p` occurs in `s` at offset `i`.
pub fn match_at(s: &[u8], p: &[u8], i: usize) -> (r: bool)
    requires
        i + p@.len() <= s@.len(),
    ensures
        r == is_match_at(s@, p@, i as int),
{
    let n = s.len();
    let m = p.len();
    let mut k: usize = 0;
    while k < m
        invariant
            k <= m,
            m == p@.len(),
            n == s@.len(),
            i + m <= n,
            forall|q: int| 0 <= q < k ==> s@[i + q] == p@[q],
        decreases m - k,
    {
        if s[i + k] != p[k] {
            assert(s@.subrange(i as int, i + m) != p@) by {
                assert(s@.subrange(i as int, i + m)[k as int] != p@[k as int]);
            }
            return false;
        }
        k = k + 1;
    }
    assert(s@.subrange(i as int, i + m) =~= p@);
    true
}

/// Finds the first occurrence of `p` in `s` whose start lies in `[lo, hi)`
/// and whose whole extent fits before `hi`.
pub fn find_in_range(s: &[u8], p: &[u8], lo: usize, hi: usize) -> (r: Option<usize>)
    requires
        lo <= hi <= s@.len(),
    ensures
        ({
            let fm = first_match(s@, p@, lo as int, hi as int);
            match r {
                Some(i) => lo <= i && fm == Some(i as int),
                None => fm is None,
            }
        }),
{
    let n = s.len();
    let m = p.len();
    let mut i: usize = lo;
    loop
        invariant
            lo <= i <= hi,
            m == p@.len(),
            n == s@.len(),
            lo <= hi <= n,
            first_match(s@, p@, lo as int, hi as int) == first_match(s@, p@, i as int, hi as int),
        decreases hi - i,
    {
        if m > hi - i {
            proof {
                assert(first_match(s@, p@, i as int, hi as int) is None);
            }
            return None;
        }
        if match_at(s, p, i) {
            proof {
                assert(first_match(s@, p@, i as int, hi as int) == Some(i as int));
            }
            return Some(i);
        }
        proof {
            assert(first_match(s@, p@, i as int, hi as int) == first_match(
                s@,
                p@,
                i + 1,
                hi as int,
            ));
            if i == hi {
                assert(s@.subrange(i as int, i as int) =~= p@);
                assert(false);
            }
        }
        i = i + 1;
    }
}

/// One search hop of query-replace: forward from `from`; on the first miss
/// the search wraps once to the buffer's start, where only matches that end
/// at or before `origin` — the adjusted starting position — are visited, so
/// the walk stops where it began.
pub open spec fn qr_search(s: Seq<u8>, p: Seq<u8>, from: int, wrapped: bool, origin: int) -> (
    bool,
    Option<int>,
) {
    if !wrapped {
        match first_match(s, p, from, s.len() as int) {
            Option::Some(f) => (false, Option::Some(f)),
            Option::None => (true, first_match(s, p, 0, origin)),
        }
    } else {
        (true, first_match(s, p, from, origin))
    }
}

/// The interactive query-replace session: visits matches in forward order
/// from the starting cursor, wraps around once (exposing the wrapped
/// indicator), and finishes when the walk reaches the starting position
/// again — whatever mix of skip and replace choices was made.
pub struct QueryReplace {
    pub pattern: Vec<u8>,
    pub replacement: Vec<u8>,
    /// The starting position: once wrapped, only matches ending at or
    /// before it are visited. Adjusted when a replacement changes lengths
    /// before it.
    pub origin: usize,
    /// Whether the search has wrapped around the buffer's end.
    pub wrapped: bool,
    /// The match the session currently sits on.
    pub current: Option<usize>,
    /// Number of replacements performed.
    pub replaced: usize,
    /// No more matches to visit.
    pub finished: bool,
}

impl QueryReplace {
    /// Coherence with the editor: the pattern is non-empty, the origin is in
    /// bounds, and the current match really is one (fully before the origin
    /// once wrapped).
    pub open spec fn wf(self, ed: Editor) -> bool {
        &&& self.pattern@.len() >= 1
        &&& self.origin <= ed.buffer@.len()
        &&& match self.current {
            Option::Some(m) => {
                &&& is_match_at(ed.buffer@, self.pattern@, m as int)
                &&& self.wrapped ==> m + self.pattern@.len() <= self.origin
                &&& !self.wrapped ==> m >= self.origin
                &&& !self.finished
            },
            Option::None => self.finished,
        }
    }

    /// Opens a query-replace session at the editor's primary cursor and
    /// moves to the first match at or after it (wrapping once if none lies
    /// ahead). With no match anywhere the session starts finished.
    pub fn start(ed: &mut Editor, pattern: Vec<u8>, replacement: Vec<u8>) -> (r: QueryReplace)
        requires
            old(ed).wf(),
            pattern@.len() >= 1,
        ensures
            final(ed).wf(),
            r.wf(*final(ed)),
            final(ed).buffer@ == old(ed).buffer@,
            final(ed).undo_stack@ == old(ed).undo_stack@,
            r.pattern@ == pattern@,
            r.replacement@ == replacement@,
            r.replaced == 0,
            r.origin == old(ed).cursors.spec_primary().position,
            ({
                let (w, nxt) = qr_search(
                    old(ed).buffer@,
                    pattern@,
                    old(ed).cursors.spec_primary().position as int,
                    false,
                    old(ed).cursors.spec_primary().position as int,
                );
                &&& r.wrapped == w
                &&& match nxt {
                    Option::Some(f) => r.current == Option::Some(f as usize) && final(ed).cursors.spec_primary().position == f && !r.finished,
                    Option::None => r.current is None && r.finished,
                }
            }),
    {
        let origin = ed.primary_position();
        let len = ed.buffer.len();
        let text_current = ed.content();
        let text = text_current.as_slice();
        proof {
            lemma_first_match(ed.buffer@, pattern@, origin as int, len as int);
        }
        let fwd = find_in_range(text, pattern.as_slice(), origin, len);
        let (wrapped, current): (bool, Option<usize>) = match fwd {
            Some(f) => (false, Some(f)),
            None => {
                proof {
                    lemma_first_match(ed.buffer@, pattern@, 0, origin as int);
                }
                let back = find_in_range(text, pattern.as_slice(), 0, origin);
                (true, back)
            },
        };
        let finished = current.is_none();
        match current {
            Some(f) => {
                proof {
                    lemma_first_match(ed.buffer@, pattern@, origin as int, len as int);
                }
                ed.move_to(f);
            },
            None => {},
        }
        QueryReplace { pattern, replacement, origin, wrapped, current, replaced: 0, finished }
    }

    /// Handles one decision at the current match: replace it (`y`) or skip
    /// it (`n`), then advance to the next match, wrapping once and stopping
    /// when the walk reaches the starting position again. A replacement is
    /// one undoable transaction on the editor.
    pub fn step(&mut self, ed: &mut Editor, replace: bool)
        requires
            old(ed).wf(),
            old(self).wf(*old(ed)),
            old(self).current is Some,
            old(ed).buffer@.len() - old(self).pattern@.len() + old(self).replacement@.len()
                <= usize::MAX,
            old(self).replaced < usize::MAX,
        ensures
            final(ed).wf(),
            final(self).wf(*final(ed)),
            final(self).pattern@ == old(self).pattern@,
            final(self).replacement@ == old(self).replacement@,
            ({
                let m = old(self).current->0 as int;
                let plen = old(self).pattern@.len() as int;
                let rlen = old(self).replacement@.len() as int;
                let s1 = if replace {
                    old(ed).buffer@.take(m) + old(self).replacement@ + old(ed).buffer@.skip(
                        m + plen,
                    )
                } else {
                    old(ed).buffer@
                };
                let origin1: int = if replace && old(self).wrapped {
                    old(self).origin - plen + rlen
                } else {
                    old(self).origin as int
                };
                let from = m + (if replace {
                    rlen
                } else {
                    plen
                });
                let (w2, nxt) = qr_search(s1, old(self).pattern@, from, old(self).wrapped, origin1);
                &&& final(ed).buffer@ == s1
                &&& final(self).replaced == old(self).replaced + (if replace {
                    1int
                } else {
                    0int
                })
                &&& final(self).origin == origin1
                &&& final(self).wrapped == w2
                &&& match nxt {
                    Option::Some(f) => final(self).current == Option::Some(f as usize) && final(ed).cursors.spec_primary().position == f && !final(self).finished,
                    Option::None => final(self).current is None && final(self).finished,
                }
                &&& replace ==> final(ed).undo_stack@.len() == old(ed).undo_stack@.len() + 1
                &&& !replace ==> final(ed).undo_stack@ == old(ed).undo_stack@
            }),
    {
        let m = match self.current {
            Some(m) => m,
            None => {
                proof {
                    assert(false);
                }
                0
            },
        };
        let plen = self.pattern.len();
        let rlen = self.replacement.len();
        let len0 = ed.buffer.len();
        proof {
            assert(m + plen <= len0);
        }
        let from: usize;
        if replace {
            let repl = self.replacement.clone();
            proof {
                assert(repl@ =~= self.replacement@);
            }
            ed.apply_single_edit(m, m + plen, repl.as_slice());
            self.replaced = self.replaced + 1;
            if self.wrapped {
                self.origin = self.origin - plen + rlen;
            }
            from = m + rlen;
        } else {
            from = m + plen;
        }
        let len = ed.buffer.len();
        let text_current = ed.content();
        let text = text_current.as_slice();
        let pat = self.pattern.clone();
        proof {
            assert(pat@ =~= self.pattern@);
        }
        let next: Option<usize>;
        if !self.wrapped {
            proof {
                lemma_first_match(ed.buffer@, self.pattern@, from as int, len as int);
            }
            let fwd = find_in_range(text, pat.as_slice(), from, len);
            match fwd {
                Some(f) => {
                    next = Some(f);
                },
                None => {
                    self.wrapped = true;
                    proof {
                        lemma_first_match(ed.buffer@, self.pattern@, 0, self.origin as int);
                    }
                    next = find_in_range(text, pat.as_slice(), 0, self.origin);
                },
            }
        } else {
            if from > self.origin {
                proof {
                    assert(first_match(
                        ed.buffer@,
                        self.pattern@,
                        from as int,
                        self.origin as int,
                    ) is None);
                }
                next = None;
            } else {
                proof {
                    lemma_first_match(
                        ed.buffer@,
                        self.pattern@,
                        from as int,
                        self.origin as int,
                    );
                }
                next = find_in_range(text, pat.as_slice(), from, self.origin);
            }
        }
        self.current = next;
        match next {
            Some(f) => {
                proof {
                    if self.wrapped {
                        lemma_first_match(
                            ed.buffer@,
                            self.pattern@,
                            if from > self.origin {
                                from as int
                            } else {
                                from as int
                            },
                            self.origin as int,
                        );
                    }
                }
                ed.move_to(f);
                self.finished = false;
            },
            None => {
                self.finished = true;
            },
        }
    }
}

} // verus!
