//! Maps bytecode offsets to source lines and back, over a proc's disassembly.

use vstd::prelude::*;

verus! {

/// One decoded instruction of a proc: the offset it starts at, and the source
/// line it announces when it is a line annotation.
#[derive(Clone, Copy, Debug, PartialEq, Eq)]
pub struct Instruction {
    pub offset: u32,
    pub line: Option<u32>,
}

/// `i` is the first position of `code` whose instruction starts at `offset`.
pub open spec fn reaches(code: Seq<Instruction>, offset: u32, i: int) -> bool {
    &&& 0 <= i < code.len()
    &&& code[i].offset == offset
    &&& forall|j: int| 0 <= j < i ==> (#[trigger] code[j]).offset != offset
}

/// The line of the latest annotation among the first `count` instructions.
pub open spec fn last_line(code: Seq<Instruction>, count: int) -> Option<u32>
    decreases count,
{
    if count <= 0 || count > code.len() {
        None
    } else if code[count - 1].line is Some {
        code[count - 1].line
    } else {
        last_line(code, count - 1)
    }
}

/// The source line of the instruction at `offset`: that of the latest
/// annotation up to and including the first instruction that starts there.
pub open spec fn line_at(code: Seq<Instruction>, offset: u32) -> Option<u32> {
    if exists|i: int| reaches(code, offset, i) {
        last_line(code, (choose|i: int| reaches(code, offset, i)) + 1)
    } else {
        None
    }
}

/// `i` is the first position of `code` that announces `line`.
pub open spec fn announces(code: Seq<Instruction>, line: u32, i: int) -> bool {
    &&& 0 <= i < code.len()
    &&& code[i].line == Some(line)
    &&& forall|j: int| 0 <= j < i ==> (#[trigger] code[j]).line != Some(line)
}

/// The offset of the instruction that follows the first annotation of `line`.
pub open spec fn offset_at(code: Seq<Instruction>, line: u32) -> Option<u32> {
    if exists|i: int| announces(code, line, i) {
        let i = choose|i: int| announces(code, line, i);
        if i + 1 < code.len() {
            Some(code[i + 1].offset)
        } else {
            None
        }
    } else {
        None
    }
}

/// Offsets grow strictly along the disassembly.
pub open spec fn ascending(code: Seq<Instruction>) -> bool {
    forall|i: int, j: int| 0 <= i < j < code.len() ==> (#[trigger] code[i]).offset < (#[trigger] code[j]).offset
}

/// Two first positions of one offset are the same position.
pub proof fn lemma_reaches_unique(code: Seq<Instruction>, offset: u32, i: int, j: int)
    requires
        reaches(code, offset, i),
        reaches(code, offset, j),
    ensures
        i == j,
{
    if i < j {
        assert(code[i].offset != offset);
    } else if j < i {
        assert(code[j].offset != offset);
    }
}

/// Two first positions of one line are the same position.
pub proof fn lemma_announces_unique(code: Seq<Instruction>, line: u32, i: int, j: int)
    requires
        announces(code, line, i),
        announces(code, line, j),
    ensures
        i == j,
{
    if i < j {
        assert(code[i].line != Some(line));
    } else if j < i {
        assert(code[j].line != Some(line));
    }
}

/// The source line of the instruction at `offset`, if the disassembly holds
/// one there and an annotation stands at or before it.
pub fn line_for_offset(code: &Vec<Instruction>, offset: u32) -> (line: Option<u32>)
    ensures
        line == line_at(code@, offset),
{
    let mut current: Option<u32> = None;
    let mut i: usize = 0;
    while i < code.len()
        invariant
            i <= code.len(),
            current == last_line(code@, i as int),
            forall|j: int| 0 <= j < i ==> (#[trigger] code@[j]).offset != offset,
        decreases code.len() - i,
    {
        let entry = code[i];
        if let Some(line) = entry.line {
            current = Some(line);
        }
        if entry.offset == offset {
            proof {
                assert(reaches(code@, offset, i as int));
                let k = choose|k: int| reaches(code@, offset, k);
                lemma_reaches_unique(code@, offset, i as int, k);
            }
            return current;
        }
        i += 1;
    }
    proof {
        assert forall|k: int| !reaches(code@, offset, k) by {
            if reaches(code@, offset, k) {
                assert(code@[k].offset != offset);
            }
        }
    }
    None
}

/// The offset of the instruction right after the first annotation of `line`,
/// if there is such an annotation and it is not the last instruction.
pub fn offset_for_line(code: &Vec<Instruction>, line: u32) -> (offset: Option<u32>)
    ensures
        offset == offset_at(code@, line),
{
    let mut i: usize = 0;
    while i < code.len()
        invariant
            i <= code.len(),
            forall|j: int| 0 <= j < i ==> (#[trigger] code@[j]).line != Some(line),
        decreases code.len() - i,
    {
        let found = match code[i].line {
            Some(current) => current == line,
            None => false,
        };
        if found {
            proof {
                assert(announces(code@, line, i as int));
                let k = choose|k: int| announces(code@, line, k);
                lemma_announces_unique(code@, line, i as int, k);
            }
            if i + 1 < code.len() {
                return Some(code[i + 1].offset);
            }
            return None;
        }
        i += 1;
    }
    proof {
        assert forall|k: int| !announces(code@, line, k) by {
            if announces(code@, line, k) {
                assert(code@[k].line != Some(line));
            }
        }
    }
    None
}

/// Up to and including position `k`, the latest annotation is the one at `a`
/// when none stands after `a`.
pub proof fn lemma_last_line_skips(code: Seq<Instruction>, a: int, k: int)
    requires
        0 <= a <= k < code.len(),
        code[a].line is Some,
        forall|j: int| a < j <= k ==> (#[trigger] code[j]).line is None,
    ensures
        last_line(code, k + 1) == code[a].line,
    decreases k - a,
{
    if a < k {
        assert(code[k].line is None);
        lemma_last_line_skips(code, a, k - 1);
    }
}

/// Where no annotation stands among the first `count` instructions, there is
/// no latest one.
pub proof fn lemma_last_line_none(code: Seq<Instruction>, count: int)
    requires
        count <= code.len(),
        forall|j: int| 0 <= j < count ==> (#[trigger] code[j]).line is None,
    ensures
        last_line(code, count) is None,
    decreases count,
{
    if count > 0 {
        assert(code[count - 1].line is None);
        lemma_last_line_none(code, count - 1);
    }
}

/// In a disassembly with ascending offsets, position `k` is the first one of
/// its offset.
pub proof fn lemma_ascending_reaches(code: Seq<Instruction>, k: int)
    requires
        ascending(code),
        0 <= k < code.len(),
    ensures
        reaches(code, code[k].offset, k),
        line_at(code, code[k].offset) == last_line(code, k + 1),
{
    assert forall|j: int| 0 <= j < k implies (#[trigger] code[j]).offset != code[k].offset by {
        assert(code[j].offset < code[k].offset);
    }
    assert(reaches(code, code[k].offset, k));
    let c = choose|c: int| reaches(code, code[k].offset, c);
    lemma_reaches_unique(code, code[k].offset, k, c);
}

/// An instruction takes the line of the annotation whose range it falls in:
/// with ascending offsets, if the annotation at position `a` starts at or
/// before the instruction at position `k`, and every other annotation starts
/// before `a`'s or after `k`'s offset, the line at `k`'s offset is `a`'s.
pub proof fn lemma_line_within_annotation(code: Seq<Instruction>, a: int, k: int)
    requires
        ascending(code),
        0 <= a < code.len(),
        0 <= k < code.len(),
        code[a].line is Some,
        code[a].offset <= code[k].offset,
        forall|j: int|
            0 <= j < code.len() && (#[trigger] code[j]).line is Some ==> code[j].offset
                <= code[a].offset || code[j].offset > code[k].offset,
    ensures
        line_at(code, code[k].offset) == code[a].line,
{
    if k < a {
        assert(code[k].offset < code[a].offset);
    }
    assert forall|j: int| a < j <= k implies (#[trigger] code[j]).line is None by {
        if code[j].line is Some {
            assert(code[a].offset < code[j].offset);
            if j < k {
                assert(code[j].offset < code[k].offset);
            }
        }
    }
    lemma_last_line_skips(code, a, k);
    lemma_ascending_reaches(code, k);
}

/// An instruction that starts before every annotation has no line.
pub proof fn lemma_line_before_annotations(code: Seq<Instruction>, k: int)
    requires
        ascending(code),
        0 <= k < code.len(),
        forall|j: int|
            0 <= j < code.len() && (#[trigger] code[j]).line is Some ==> code[j].offset
                > code[k].offset,
    ensures
        line_at(code, code[k].offset) is None,
{
    assert forall|j: int| 0 <= j < k + 1 implies (#[trigger] code[j]).line is None by {
        if code[j].line is Some && j < k {
            assert(code[j].offset < code[k].offset);
        }
    }
    lemma_last_line_none(code, k + 1);
    lemma_ascending_reaches(code, k);
}

/// An offset at which no instruction starts has no line.
pub proof fn lemma_line_off_boundary(code: Seq<Instruction>, offset: u32)
    requires
        forall|j: int| 0 <= j < code.len() ==> (#[trigger] code[j]).offset != offset,
    ensures
        line_at(code, offset) is None,
{
    assert forall|k: int| !reaches(code, offset, k) by {
        if reaches(code, offset, k) {
            assert(code[k].offset != offset);
        }
    }
}

/// Looking up the offset found for a line gives the line of the instruction
/// that follows the line's first annotation.
pub proof fn lemma_offset_then_line(code: Seq<Instruction>, line: u32, a: int)
    requires
        announces(code, line, a),
        a + 1 < code.len(),
    ensures
        offset_at(code, line) == Some(code[a + 1].offset),
        line_at(code, offset_at(code, line).unwrap()) == line_at(code, code[a + 1].offset),
{
    let c = choose|c: int| announces(code, line, c);
    lemma_announces_unique(code, line, a, c);
}

/// The line that the instruction right after the annotation at position `a`
/// belongs to, where that annotation announces `line`: its own if it is an
/// annotation itself, else `line`.
pub open spec fn line_after(code: Seq<Instruction>, a: int, line: u32) -> Option<u32> {
    if code[a + 1].line is Some {
        code[a + 1].line
    } else {
        Some(line)
    }
}

/// With ascending offsets, the instruction right after an annotation has the
/// annotation's line, unless it is an annotation itself.
pub proof fn lemma_line_after_annotation(code: Seq<Instruction>, line: u32, a: int)
    requires
        ascending(code),
        0 <= a,
        a + 1 < code.len(),
        code[a].line == Some(line),
    ensures
        line_at(code, code[a + 1].offset) == line_after(code, a, line),
{
    lemma_ascending_reaches(code, a + 1);
    if code[a + 1].line is None {
        lemma_last_line_skips(code, a, a + 1);
    }
}

/// Among the annotations of a line, one comes first.
pub proof fn lemma_first_annotation(code: Seq<Instruction>, line: u32, a: int) -> (first: int)
    requires
        0 <= a < code.len(),
        code[a].line == Some(line),
    ensures
        announces(code, line, first),
        first <= a,
    decreases a,
{
    if exists|j: int| 0 <= j < a && (#[trigger] code[j]).line == Some(line) {
        let j = choose|j: int| 0 <= j < a && (#[trigger] code[j]).line == Some(line);
        lemma_first_annotation(code, line, j)
    } else {
        a
    }
}

/// From a line to its offset and back: with ascending offsets, if `line` has
/// an annotation with an instruction after it, then an offset is found for
/// `line`, and the line of that offset is the line of the instruction after
/// the annotation. Where `line` is announced more than once, this is said of
/// the annotations whose next instruction belongs to the same line as the
/// one after the first annotation.
pub proof fn lemma_line_round_trip(code: Seq<Instruction>, line: u32, a: int)
    requires
        ascending(code),
        0 <= a,
        a + 1 < code.len(),
        code[a].line == Some(line),
        forall|f: int| #[trigger]
            announces(code, line, f) ==> line_after(code, f, line) == line_after(code, a, line),
    ensures
        offset_at(code, line) is Some,
        line_at(code, offset_at(code, line).unwrap()) == line_at(code, code[a + 1].offset),
{
    let first = lemma_first_annotation(code, line, a);
    lemma_offset_then_line(code, line, first);
    lemma_line_after_annotation(code, line, first);
    lemma_line_after_annotation(code, line, a);
}

} // verus!
