//! IPv4 fragment reassembly.
//!
//! The engine reconstructs a complete datagram payload from a stream of
//! possibly out-of-order, overlapping or missing fragments, keyed by the
//! 16-bit IPv4 identification field. Feeding one fragment is a single
//! synchronous step (`update`); the outcome of each step, and the change to
//! the reassembly table, are pinned down by the spec functions
//! [`outcome_of`] and [`table_after`].
use std::collections::HashMap;
use vstd::prelude::*;

verus! {

broadcast use vstd::std_specs::hash::group_hash_axioms;

/// Filler written into a reassembled buffer in place of bytes that no
/// observed fragment covered, chosen to make the fabricated region
/// distinguishable from real data.
pub const FILL_BYTE: u8 = 0xFF;

/// Result of feeding one fragment into a defragmentation engine.
pub enum Fragment<'a> {
    /// Data is not fragmented - return original slice
    NoFrag(&'a [u8]),
    /// Data was defragmented - return buffer
    Complete(Vec<u8>),
    /// Fragment is part of a (yet) unfinished buffer
    Incomplete,
    /// Defragmentation error
    Error,
}

/// The outcome of one engine step, at the specification level: the same
/// four cases as [`Fragment`], with the carried bytes as sequences.
pub enum FragOutcome {
    NoFrag(Seq<u8>),
    Complete(Seq<u8>),
    Incomplete,
    Error,
}

impl<'a> View for Fragment<'a> {
    type V = FragOutcome;

    open spec fn view(&self) -> FragOutcome {
        match self {
            Fragment::NoFrag(bytes) => FragOutcome::NoFrag(bytes@),
            Fragment::Complete(buf) => FragOutcome::Complete(buf@),
            Fragment::Incomplete => FragOutcome::Incomplete,
            Fragment::Error => FragOutcome::Error,
        }
    }
}

/// An in-progress buffer after a fragment with the given byte offset is
/// written into it: later data wins over whatever the buffer held from the
/// offset on, and a gap before the offset is padded with [`FILL_BYTE`].
pub open spec fn merged(buf: Seq<u8>, offset: int, frag: Seq<u8>) -> Seq<u8> {
    if offset <= buf.len() {
        buf.take(offset) + frag
    } else {
        buf + Seq::new((offset - buf.len()) as nat, |i: int| FILL_BYTE) + frag
    }
}

/// The reassembly table after one engine step.
///
/// A terminal fragment (`more == false`) at offset zero touches no state;
/// at a later offset it closes and removes the identifier's entry, if one
/// exists. A non-terminal fragment at offset zero opens a fresh entry,
/// discarding any in-progress buffer under the same identifier; at a later
/// offset it is written into the identifier's buffer, or silently dropped
/// when no buffer exists.
pub open spec fn table_after(
    t: Map<u16, Seq<u8>>,
    id: u16,
    offset: int,
    more: bool,
    frag: Seq<u8>,
) -> Map<u16, Seq<u8>> {
    if !more {
        if offset == 0 {
            t
        } else if t.contains_key(id) {
            t.remove(id)
        } else {
            t
        }
    } else {
        if offset == 0 {
            t.insert(id, frag)
        } else if t.contains_key(id) {
            t.insert(id, merged(t[id], offset, frag))
        } else {
            t
        }
    }
}

/// The result reported for one engine step: a terminal fragment at offset
/// zero is the whole datagram (`NoFrag`); a later terminal fragment either
/// completes the identifier's buffer (`Complete`) or, when no buffer
/// exists, is an orphan (`Error`); every non-terminal fragment is absorbed
/// (`Incomplete`).
pub open spec fn outcome_of(
    t: Map<u16, Seq<u8>>,
    id: u16,
    offset: int,
    more: bool,
    frag: Seq<u8>,
) -> FragOutcome {
    if !more {
        if offset == 0 {
            FragOutcome::NoFrag(frag)
        } else if t.contains_key(id) {
            FragOutcome::Complete(merged(t[id], offset, frag))
        } else {
            FragOutcome::Error
        }
    } else {
        FragOutcome::Incomplete
    }
}

/// Defragmentation engine
pub trait DefragEngine {
    /// This function updates the engine with a new Fragment
    /// Returns a Fragment describing the defragmentation operation result
    fn update<'a>(
        &mut self,
        id: u16,
        frag_offset: usize,
        more_fragments: bool,
        frag: &'a [u8],
    ) -> Fragment<'a>;
}

/// The IPv4 reassembly engine: one in-progress buffer per identification
/// value. Its view is the reassembly table as a map from identifier to the
/// bytes gathered so far.
pub struct IP4DefragEngine {
    ipv4_fragments: HashMap<u16, Vec<u8>>,
}

impl View for IP4DefragEngine {
    type V = Map<u16, Seq<u8>>;

    closed spec fn view(&self) -> Map<u16, Seq<u8>> {
        self.ipv4_fragments@.map_values(|buf: Vec<u8>| buf@)
    }
}

impl IP4DefragEngine {
    /// A fresh engine with an empty reassembly table.
    pub fn new() -> (engine: IP4DefragEngine)
        ensures
            engine@ == Map::<u16, Seq<u8>>::empty(),
    {
        let engine = IP4DefragEngine { ipv4_fragments: HashMap::new() };
        proof {
            assert(engine@ =~= Map::<u16, Seq<u8>>::empty());
        }
        engine
    }
}

/// Write one fragment into an in-progress buffer: truncate on overlap, pad
/// a gap with [`FILL_BYTE`], then append the fragment's bytes.
fn merge_into(f: &mut Vec<u8>, frag_offset: usize, frag: &[u8])
    ensures
        final(f)@ == merged(old(f)@, frag_offset as int, frag@),
{
    if frag_offset < f.len() {
        f.truncate(frag_offset);
    } else if frag_offset > f.len() {
        f.resize(frag_offset, FILL_BYTE);
    }
    let ghost prefix = f@;
    f.extend_from_slice(frag);
    proof {
        assert forall|i: int| prefix.len() <= i < f@.len() implies f@[i] == frag@[i
            - prefix.len()] by {
            assert(cloned::<u8>(frag@[i - prefix.len()], f@[i]));
        }
        assert(f@ =~= prefix + frag@);
        if frag_offset > old(f)@.len() {
            assert(prefix =~= old(f)@ + Seq::new(
                (frag_offset - old(f)@.len()) as nat,
                |i: int| FILL_BYTE,
            ));
        } else {
            assert(prefix =~= old(f)@.take(frag_offset as int));
        }
        assert(f@ =~= merged(old(f)@, frag_offset as int, frag@));
    }
}

impl DefragEngine for IP4DefragEngine {
    /// Feed one fragment. The new table is exactly
    /// `table_after(old(self)@, ...)` and the returned value is exactly
    /// `outcome_of(old(self)@, ...)`: an unfragmented packet is passed
    /// through unchanged, a closing fragment completes (or orphans) its
    /// datagram, and every other fragment is absorbed.
    fn update<'a>(
        &mut self,
        id: u16,
        frag_offset: usize,
        more_fragments: bool,
        frag: &'a [u8],
    ) -> (result: Fragment<'a>)
        ensures
            final(self)@ == table_after(old(self)@, id, frag_offset as int, more_fragments, frag@),
            result@ == outcome_of(old(self)@, id, frag_offset as int, more_fragments, frag@),
    {
        if !more_fragments {
            if frag_offset == 0 {
                Fragment::NoFrag(frag)
            } else {
                // This is the last fragment
                match self.ipv4_fragments.remove(&id) {
                    None => Fragment::Error,
                    Some(mut f) => {
                        proof {
                            assert(self@ =~= old(self)@.remove(id));
                            assert(f@ == old(self)@[id]);
                        }
                        merge_into(&mut f, frag_offset, frag);
                        Fragment::Complete(f)
                    },
                }
            }
        } else {
            // Fragment is part of a larger buffer
            if frag_offset == 0 {
                // first fragment: open a fresh buffer, discarding any
                // in-progress buffer under the same identifier
                let v = vstd::slice::slice_to_vec(frag);
                self.ipv4_fragments.insert(id, v);
                proof {
                    assert(self@ =~= old(self)@.insert(id, frag@));
                }
            } else {
                match self.ipv4_fragments.remove(&id) {
                    Some(mut f) => {
                        proof {
                            assert(f@ == old(self)@[id]);
                        }
                        merge_into(&mut f, frag_offset, frag);
                        self.ipv4_fragments.insert(id, f);
                        proof {
                            assert(self@ =~= old(self)@.insert(
                                id,
                                merged(old(self)@[id], frag_offset as int, frag@),
                            ));
                        }
                    },
                    // a middle fragment with no known first fragment is
                    // dropped and the table left as it was
                    None => {
                        proof {
                            assert(self@ =~= old(self)@);
                        }
                    },
                }
            }
            Fragment::Incomplete
        }
    }
}

/// An unfragmented packet (terminal, offset zero) is passed through
/// unchanged as `NoFrag`, and the reassembly table is untouched.
pub proof fn lemma_unfragmented_passthrough(t: Map<u16, Seq<u8>>, id: u16, frag: Seq<u8>)
    ensures
        outcome_of(t, id, 0, false, frag) == FragOutcome::NoFrag(frag),
        table_after(t, id, 0, false, frag) == t,
{
}

/// A well-ordered three-fragment datagram — two fragments of length `n` at
/// offsets `0` and `n`, then a terminal fragment at offset `2 * n` —
/// reports `Incomplete` twice, then completes with the concatenation of
/// the three payloads, and its identifier is gone from the table.
pub proof fn lemma_ordered_reassembly(
    t: Map<u16, Seq<u8>>,
    id: u16,
    a: Seq<u8>,
    b: Seq<u8>,
    c: Seq<u8>,
    n: int,
)
    requires
        !t.contains_key(id),
        a.len() == n,
        b.len() == n,
        n > 0,
    ensures
        ({
            let t1 = table_after(t, id, 0, true, a);
            let t2 = table_after(t1, id, n, true, b);
            let t3 = table_after(t2, id, 2 * n, false, c);
            &&& outcome_of(t, id, 0, true, a) == FragOutcome::Incomplete
            &&& outcome_of(t1, id, n, true, b) == FragOutcome::Incomplete
            &&& outcome_of(t2, id, 2 * n, false, c) == FragOutcome::Complete(a + b + c)
            &&& !t3.contains_key(id)
        }),
{
    let t1 = table_after(t, id, 0, true, a);
    let t2 = table_after(t1, id, n, true, b);
    assert(merged(a, n, b) =~= a + b);
    assert(t2[id] == a + b);
    assert(merged(a + b, 2 * n, c) =~= a + b + c);
}

/// Later data wins: when a fragment lands at an offset inside the bytes
/// already gathered, the buffer's tail from that offset on is discarded
/// and the new bytes take its place. A terminal fragment there completes
/// with the same buffer.
pub proof fn lemma_overlap_last_wins(t: Map<u16, Seq<u8>>, id: u16, offset: int, frag: Seq<u8>)
    requires
        t.contains_key(id),
        0 <= offset < t[id].len(),
    ensures
        table_after(t, id, offset, true, frag)[id] == t[id].take(offset) + frag,
        offset > 0 ==> outcome_of(t, id, offset, false, frag) == FragOutcome::Complete(
            t[id].take(offset) + frag,
        ),
{
    if offset == 0 {
        assert(table_after(t, id, 0, true, frag)[id] =~= t[id].take(0) + frag);
    }
}

/// A fragment landing past the end of the bytes gathered so far leaves a
/// gap, and the gap is filled with `FILL_BYTE` before the new bytes are
/// appended: the old bytes, the filler and the fragment all sit at their
/// own places in the widened buffer.
pub proof fn lemma_gap_padded(t: Map<u16, Seq<u8>>, id: u16, offset: int, frag: Seq<u8>)
    requires
        t.contains_key(id),
        offset > t[id].len(),
    ensures
        ({
            let buf = table_after(t, id, offset, true, frag)[id];
            &&& buf == t[id] + Seq::new((offset - t[id].len()) as nat, |i: int| FILL_BYTE) + frag
            &&& forall|i: int| 0 <= i < t[id].len() ==> buf[i] == t[id][i]
            &&& forall|i: int| t[id].len() <= i < offset ==> buf[i] == FILL_BYTE
            &&& forall|i: int| offset <= i < offset + frag.len() ==> buf[i] == frag[i - offset]
            &&& outcome_of(t, id, offset, false, frag) == FragOutcome::Complete(buf)
        }),
{
}

/// A terminal fragment at a positive offset for an identifier with no
/// in-progress buffer is an orphan: the engine reports `Error` and the
/// table is unchanged.
pub proof fn lemma_orphan_terminal(t: Map<u16, Seq<u8>>, id: u16, offset: int, frag: Seq<u8>)
    requires
        !t.contains_key(id),
        offset > 0,
    ensures
        outcome_of(t, id, offset, false, frag) == FragOutcome::Error,
        table_after(t, id, offset, false, frag) == t,
{
}

/// An identifier collision — a first fragment arriving while an
/// in-progress buffer for the same identifier still exists — discards the
/// old buffer outright: a terminal fragment right after the new first one
/// completes using only the bytes written after the collision.
pub proof fn lemma_collision_discards(t: Map<u16, Seq<u8>>, id: u16, a: Seq<u8>, c: Seq<u8>)
    requires
        t.contains_key(id),
        a.len() > 0,
    ensures
        ({
            let t1 = table_after(t, id, 0, true, a);
            &&& t1[id] == a
            &&& outcome_of(t1, id, a.len() as int, false, c) == FragOutcome::Complete(a + c)
            &&& !table_after(t1, id, a.len() as int, false, c).contains_key(id)
        }),
{
    let t1 = table_after(t, id, 0, true, a);
    assert(merged(a, a.len() as int, c) =~= a + c);
}

/// Feeding the same fragment twice is not idempotent: replaying a terminal
/// fragment changes the result. The first call completes the datagram and
/// removes its entry, so the replay finds no buffer and reports `Error`.
pub proof fn lemma_replay_terminal_not_idempotent(
    t: Map<u16, Seq<u8>>,
    id: u16,
    offset: int,
    frag: Seq<u8>,
)
    requires
        t.contains_key(id),
        offset > 0,
    ensures
        outcome_of(t, id, offset, false, frag) matches FragOutcome::Complete(_),
        outcome_of(table_after(t, id, offset, false, frag), id, offset, false, frag)
            == FragOutcome::Error,
{
}

} // verus!
