//! The rewriting stream processor: collapsible lines are emitted as padded
//! carriage-return overwrites, normal lines pass through verbatim, and at
//! end of stream a single newline is owed iff the last emission was an
//! overwrite.

use vstd::prelude::*;
use crate::classify::is_collapsible;
use crate::classify::need_to_capture;

verus! {

/// State carried across the lines of one diagnostic stream.
pub struct RewriteState {
    /// Visible length of the last emitted collapsible line, used as the
    /// padding target that erases its remnants; 0 after a normal line or
    /// before anything was emitted.
    pub previous_length: usize,
    /// True iff the most recently emitted content ended with a carriage
    /// return overwrite rather than a true newline, so that a newline is
    /// owed at end of stream.
    pub pending_newline: bool,
}

/// The line without its trailing newline terminator, if it carries one.
pub open spec fn visible_text(line: Seq<u8>) -> Seq<u8> {
    if line.len() > 0 && line[line.len() - 1] == 10 {
        line.drop_last()
    } else {
        line
    }
}

/// `n` space bytes.
pub open spec fn spaces(n: nat) -> Seq<u8> {
    Seq::new(n, |i: int| 32u8)
}

/// Number of spaces needed to pad a visible text of length `len` so that the
/// remnants of a previous line of length `prev` are erased.
pub open spec fn pad_len(prev: nat, len: nat) -> nat {
    if prev > len {
        (prev - len) as nat
    } else {
        0
    }
}

/// The bytes emitted for one line, given the previous collapsible visible
/// length: a collapsible line becomes its visible text, padding spaces and a
/// carriage return; a normal line passes through verbatim.
pub open spec fn line_output(line: Seq<u8>, prev: nat) -> Seq<u8> {
    if is_collapsible(line) {
        let v = visible_text(line);
        v + spaces(pad_len(prev, v.len())) + seq![13u8]
    } else {
        line
    }
}

/// The padding target after the given lines were processed.
pub open spec fn prev_after(lines: Seq<Seq<u8>>) -> nat {
    if lines.len() == 0 {
        0
    } else if is_collapsible(lines.last())  {
        visible_text(lines.last()).len()
    } else {
        0
    }
}

/// Whether a newline is owed after the given lines were processed: true iff
/// the last of them was collapsible.
pub open spec fn pending_after(lines: Seq<Seq<u8>>) -> bool {
    lines.len() > 0 && is_collapsible(lines.last())
}

/// The state matches the lines processed so far.
pub open spec fn state_models(st: RewriteState, lines: Seq<Seq<u8>>) -> bool {
    st.previous_length as nat == prev_after(lines) && st.pending_newline == pending_after(lines)
}

/// The bytes emitted for a sequence of lines, without the end-of-stream
/// newline.
pub open spec fn rendered_lines(lines: Seq<Seq<u8>>) -> Seq<u8>
    decreases lines.len(),
{
    if lines.len() == 0 {
        Seq::empty()
    } else {
        rendered_lines(lines.drop_last()) + line_output(
            lines.last(),
            prev_after(lines.drop_last()),
        )
    }
}

/// The bytes emitted for a whole diagnostic stream, the end-of-stream
/// newline included.
pub open spec fn rendered(lines: Seq<Seq<u8>>) -> Seq<u8> {
    rendered_lines(lines) + if pending_after(lines) {
        seq![10u8]
    } else {
        Seq::<u8>::empty()
    }
}

impl RewriteState {
    /// Fresh state: no remnants to erase, no newline owed.
    pub fn new() -> (st: RewriteState)
        ensures
            state_models(st, Seq::empty()),
            st.previous_length == 0,
            !st.pending_newline,
    {
        RewriteState { previous_length: 0, pending_newline: false }
    }

    /// Processes one line, terminator included if it carries one, and
    /// returns the bytes to emit for it.
    pub fn process_line(&mut self, line: &[u8]) -> (out: Vec<u8>)
        ensures
            out@ == line_output(line@, old(self).previous_length as nat),
            is_collapsible(line@) ==> final(self).previous_length as nat == visible_text(
                line@,
            ).len() && final(self).pending_newline,
            !is_collapsible(line@) ==> final(self).previous_length == 0
                && !final(self).pending_newline,
    {
        let mut out: Vec<u8> = Vec::new();
        if need_to_capture(line) {
            let vis_len = if line.len() > 0 && line[line.len() - 1] == 10 {
                line.len() - 1
            } else {
                line.len()
            };
            let ghost v = visible_text(line@);
            proof {
                assert(v =~= line@.subrange(0, vis_len as int));
            }
            let mut i: usize = 0;
            while i < vis_len
                invariant
                    0 <= i <= vis_len <= line@.len(),
                    v == line@.subrange(0, vis_len as int),
                    out@ == v.take(i as int),
                decreases vis_len - i,
            {
                out.push(line[i]);
                proof {
                    assert(v.take(i + 1) =~= v.take(i as int).push(line@[i as int]));
                }
                i = i + 1;
            }
            proof {
                assert(v.take(vis_len as int) =~= v);
            }
            let pad = if self.previous_length > vis_len {
                self.previous_length - vis_len
            } else {
                0
            };
            let mut j: usize = 0;
            while j < pad
                invariant
                    0 <= j <= pad,
                    pad as nat == pad_len(old(self).previous_length as nat, v.len()),
                    v == visible_text(line@),
                    out@ == v + spaces(j as nat),
                decreases pad - j,
            {
                out.push(32);
                proof {
                    assert(v + spaces((j + 1) as nat) =~= (v + spaces(j as nat)).push(32u8));
                }
                j = j + 1;
            }
            out.push(13);
            proof {
                assert(out@ =~= v + spaces(pad_len(old(self).previous_length as nat, v.len()))
                    + seq![13u8]);
            }
            self.previous_length = vis_len;
            self.pending_newline = true;
        } else {
            out.extend_from_slice(line);
            proof {
                assert(out@ =~= line@);
            }
            self.previous_length = 0;
            self.pending_newline = false;
        }
        out
    }

    /// The bytes to emit once the input stream has closed: a single newline
    /// iff one is owed, so that the cursor is left at the start of a fresh
    /// line.
    pub fn finish(&self) -> (out: Vec<u8>)
        ensures
            out@ == if self.pending_newline {
                seq![10u8]
            } else {
                Seq::<u8>::empty()
            },
    {
        let mut out: Vec<u8> = Vec::new();
        if self.pending_newline {
            out.push(10);
        }
        proof {
            if self.pending_newline {
                assert(out@ =~= seq![10u8]);
            } else {
                assert(out@ =~= Seq::<u8>::empty());
            }
        }
        out
    }
}

/// Renders a whole diagnostic stream, given as its lines with terminators
/// included (the last may lack one), into the exact bytes emitted.
pub fn process_lines(lines: &Vec<Vec<u8>>) -> (out: Vec<u8>)
    ensures
        out@ == rendered(lines.deep_view()),
{
    let ghost dv = lines.deep_view();
    proof {
        assert(dv.len() == lines@.len());
        assert(forall|k: int| 0 <= k < dv.len() ==> dv[k] == lines@[k]@);
    }
    let mut st = RewriteState::new();
    let mut out: Vec<u8> = Vec::new();
    let mut i: usize = 0;
    while i < lines.len()
        invariant
            0 <= i <= lines@.len(),
            dv == lines.deep_view(),
            dv.len() == lines@.len(),
            forall|k: int| 0 <= k < dv.len() ==> dv[k] == lines@[k]@,
            state_models(st, dv.take(i as int)),
            out@ == rendered_lines(dv.take(i as int)),
        decreases lines@.len() - i,
    {
        let piece = st.process_line(lines[i].as_slice());
        out.extend_from_slice(piece.as_slice());
        proof {
            assert(dv.take(i + 1).drop_last() =~= dv.take(i as int));
            assert(dv.take(i + 1).last() == dv[i as int]);
        }
        i = i + 1;
    }
    proof {
        assert(dv.take(lines@.len() as int) =~= dv);
    }
    let tail = st.finish();
    out.extend_from_slice(tail.as_slice());
    proof {
        assert(out@ =~= rendered(dv));
    }
    out
}

/// At end of stream the processor owes exactly one newline iff the last
/// action was a collapsible overwrite, whose emission ends with a carriage
/// return; after a normal last line, or an empty stream, nothing is added.
pub proof fn lemma_end_of_stream(lines: Seq<Seq<u8>>)
    ensures
        pending_after(lines) ==> rendered(lines) == rendered_lines(lines).push(10u8),
        pending_after(lines) ==> rendered_lines(lines).len() > 0 && rendered_lines(
            lines,
        ).last() == 13u8,
        !pending_after(lines) ==> rendered(lines) == rendered_lines(lines),
{
    if pending_after(lines) {
        assert(rendered(lines) =~= rendered_lines(lines).push(10u8));
        let lo = line_output(lines.last(), prev_after(lines.drop_last()));
        assert(lo.len() > 0 && lo.last() == 13u8);
        assert(rendered_lines(lines).last() == 13u8);
    } else {
        assert(rendered(lines) =~= rendered_lines(lines));
    }
}

} // verus!
