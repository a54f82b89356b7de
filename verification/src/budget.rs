//! Keeping text within bounds: clipping lines, packing lines into a budget, and
//! filling chunks of limited size.
use vstd::prelude::*;
use crate::text::{chars_of, is_blank, joined, push_text, string_of, strs, trim_end};
use crate::text::{all_white, blank, lemma_strs_push, trim_back, white};

verus! {

broadcast use vstd::string::group_string_axioms;

// ---------------------------------------------------------------------------
// Clipping
// ---------------------------------------------------------------------------

/// A text cut down to `max` characters; three dots mark the cut.
pub open spec fn clipped(s: Seq<char>, max: nat) -> Seq<char> {
    if s.len() <= max {
        s
    } else {
        s.take(max as int) + "..."@
    }
}

/// The text, cut down to `max_chars` characters with three dots after the cut.
pub fn truncate_line(text: &str, max_chars: usize) -> (r: String)
    ensures
        r@ == clipped(text@, max_chars as nat),
{
    let cs = chars_of(text);
    if cs.len() <= max_chars {
        return text.to_string();
    }
    let mut out = string_of(&cs, 0, max_chars);
    push_text(&mut out, "...");
    assert(cs@.subrange(0, max_chars as int) =~= text@.take(max_chars as int));
    out
}

/// A clipped text is at most three characters longer than the bound, and it
/// begins as the text does.
pub proof fn clipped_length(s: Seq<char>, max: nat)
    ensures
        clipped(s, max).len() <= max + 3,
        s.len() <= max ==> clipped(s, max) == s,
        s.len() > max ==> clipped(s, max).take(max as int) == s.take(max as int),
{
    reveal_strlit("...");
    if s.len() > max {
        assert(clipped(s, max).take(max as int) =~= s.take(max as int));
    }
}

// ---------------------------------------------------------------------------
// Packing
// ---------------------------------------------------------------------------

/// The number of characters of the lines when they are joined by newlines.
pub open spec fn width(lines: Seq<Seq<char>>) -> nat
    decreases lines.len(),
{
    if lines.len() == 0 {
        0
    } else if lines.len() == 1 {
        lines[0].len()
    } else {
        width(lines.drop_last()) + 1 + lines.last().len()
    }
}

/// The lines are few enough and short enough.
pub open spec fn fits(lines: Seq<Seq<char>>, max_lines: nat, max_chars: nat) -> bool {
    lines.len() <= max_lines && width(lines) <= max_chars
}

/// The longest run of first lines that fits.
pub open spec fn fitting(lines: Seq<Seq<char>>, max_lines: nat, max_chars: nat) -> Seq<Seq<char>>
    decreases lines.len(),
{
    if lines.len() == 0 || fits(lines, max_lines, max_chars) {
        lines
    } else {
        fitting(lines.drop_last(), max_lines, max_chars)
    }
}

/// What is shown where nothing else is.
pub open spec fn nothing_found() -> Seq<char> {
    "No relevant indexed shell context was found."@
}

/// The mark after lines that were left out.
pub open spec fn budget_mark() -> Seq<char> {
    "... context truncated for budget ..."@
}

/// The first lines that fit, followed by a mark where lines were left out and
/// the mark fits too; a line that says so where not even the first line fits.
pub open spec fn packed(lines: Seq<Seq<char>>, max_lines: nat, max_chars: nat) -> Seq<Seq<char>> {
    let out = fitting(lines, max_lines, max_chars);
    if out.len() == 0 {
        seq![nothing_found()]
    } else if out.len() < lines.len() && out.len() < max_lines && width(out) + 1
        + budget_mark().len() <= max_chars {
        out.push(budget_mark())
    } else {
        out
    }
}

proof fn lemma_width_joined(lines: Seq<Seq<char>>)
    ensures
        joined(lines, "\n"@).len() == width(lines),
    decreases lines.len(),
{
    reveal_strlit("\n");
    if lines.len() > 1 {
        lemma_width_joined(lines.drop_last());
    }
}

proof fn lemma_width_grows(lines: Seq<Seq<char>>, k: int)
    requires
        0 <= k <= lines.len(),
    ensures
        width(lines.take(k)) <= width(lines),
    decreases lines.len() - k,
{
    if k < lines.len() {
        lemma_width_grows(lines, k + 1);
        assert(lines.take(k + 1).drop_last() =~= lines.take(k));
    } else {
        assert(lines.take(k) =~= lines);
    }
}

/// Where the first `k` lines fit and one more does not, they are the ones kept.
proof fn lemma_fitting(lines: Seq<Seq<char>>, k: int, max_lines: nat, max_chars: nat)
    requires
        0 <= k <= lines.len(),
        fits(lines.take(k), max_lines, max_chars),
        k < lines.len() ==> !fits(lines.take(k + 1), max_lines, max_chars),
    ensures
        fitting(lines, max_lines, max_chars) == lines.take(k),
    decreases lines.len(),
{
    if k == lines.len() {
        assert(lines.take(k) =~= lines);
    } else {
        lemma_width_grows(lines, k + 1);
        assert(!fits(lines, max_lines, max_chars));
        let rest = lines.drop_last();
        assert(rest.take(k) =~= lines.take(k));
        if k < rest.len() {
            assert(rest.take(k + 1) =~= lines.take(k + 1));
        }
        lemma_fitting(rest, k, max_lines, max_chars);
    }
}

/// The first lines that fit into the budget, with a mark where lines were left
/// out.
pub fn pack_lines_with_budget(lines: Vec<String>, max_lines: usize, max_chars: usize) -> (r: Vec<
    String,
>)
    ensures
        strs(r@) == packed(strs(lines@), max_lines as nat, max_chars as nat),
{
    let ghost all = strs(lines@);
    let total_lines: usize = lines.len();
    let mut out: Vec<String> = Vec::new();
    let mut used: usize = 0;
    let mut i: usize = 0;
    let mut full = false;
    while i < total_lines && !full
        invariant
            all == strs(lines@),
            total_lines == lines@.len(),
            i <= total_lines,
            strs(out@) == all.take(i as int),
            used == width(all.take(i as int)),
            fits(all.take(i as int), max_lines as nat, max_chars as nat),
            full ==> i < total_lines && !fits(
                all.take(i + 1),
                max_lines as nat,
                max_chars as nat,
            ),
        decreases total_lines - i, (if full { 0int } else { 1int }),
    {
        assert(out@.len() == strs(out@).len());
        assert(all.take(i + 1).drop_last() =~= all.take(i as int));
        assert(all.take(i + 1).last() == lines@[i as int]@);
        let line_chars: usize = lines[i].as_str().unicode_len();
        let gap: usize = if i == 0 { 0 } else { 1 };
        let room: usize = max_chars - used;
        if i >= max_lines || gap > room || line_chars > room - gap {
            full = true;
        } else {
            used = used + gap + line_chars;
            proof {
                lemma_strs_push(out@, lines@[i as int]);
                assert(all.take(i + 1) =~= all.take(i as int).push(lines@[i as int]@));
            }
            out.push(lines[i].clone());
            assert(strs(out@) =~= all.take(i + 1));
            i = i + 1;
        }
    }
    proof {
        lemma_fitting(all, i as int, max_lines as nat, max_chars as nat);
        assert(out@.len() == strs(out@).len());
        assert(all.take(i as int).len() == i);
        reveal_strlit("... context truncated for budget ...");
    }
    if i == 0 {
        let mut none: Vec<String> = Vec::new();
        none.push("No relevant indexed shell context was found.".to_string());
        assert(strs(none@) =~= seq![nothing_found()]);
        return none;
    }
    if i < total_lines && i < max_lines && max_chars - used >= 37 {
        out.push("... context truncated for budget ...".to_string());
        assert(strs(out@) =~= all.take(i as int).push(budget_mark()));
    }
    out
}

/// The packed lines, joined by newlines, stay within the larger of the budget
/// and the one line that stands for nothing, and there are no more of them than
/// allowed (but at least one).
pub proof fn packed_within_budget(lines: Seq<Seq<char>>, max_lines: nat, max_chars: nat)
    ensures
        joined(packed(lines, max_lines, max_chars), "\n"@).len() <= if max_chars < 44 {
            44
        } else {
            max_chars
        },
        packed(lines, max_lines, max_chars).len() >= 1,
        packed(lines, max_lines, max_chars).len() <= if max_lines < 1 {
            1
        } else {
            max_lines
        },
{
    reveal_strlit("No relevant indexed shell context was found.");
    let out = fitting(lines, max_lines, max_chars);
    let all = packed(lines, max_lines, max_chars);
    lemma_fitting_fits(lines, max_lines, max_chars);
    lemma_width_joined(all);
    if out.len() > 0 && out.len() < all.len() {
        assert(all.drop_last() =~= out);
    }
}

proof fn lemma_fitting_fits(lines: Seq<Seq<char>>, max_lines: nat, max_chars: nat)
    ensures
        fits(fitting(lines, max_lines, max_chars), max_lines, max_chars),
        fitting(lines, max_lines, max_chars).len() <= lines.len(),
        fitting(lines, max_lines, max_chars) == lines.take(
            fitting(lines, max_lines, max_chars).len() as int,
        ),
    decreases lines.len(),
{
    if lines.len() > 0 && !fits(lines, max_lines, max_chars) {
        lemma_fitting_fits(lines.drop_last(), max_lines, max_chars);
        let k = fitting(lines, max_lines, max_chars).len() as int;
        assert(lines.drop_last().take(k) =~= lines.take(k));
    } else {
        assert(lines.take(lines.len() as int) =~= lines);
    }
}

/// Lines that all fit come out as they went in.
pub proof fn packed_keeps_what_fits(lines: Seq<Seq<char>>, max_lines: nat, max_chars: nat)
    requires
        lines.len() > 0,
        fits(lines, max_lines, max_chars),
    ensures
        packed(lines, max_lines, max_chars) == lines,
{
}

// ---------------------------------------------------------------------------
// Chunks
// ---------------------------------------------------------------------------

/// Chunks that are closed, the chunk that is being filled, and whether lines
/// were left out for want of room.
pub struct ChunkState {
    pub chunks: Seq<Seq<char>>,
    pub current: Seq<char>,
    pub truncated: bool,
}

/// The mark at the end of the last chunk where lines were left out.
pub open spec fn omitted_mark() -> Seq<char> {
    "\n... [truncated: additional older context omitted] ..."@
}

/// The state after a line was offered, and whether there is room for more.
///
/// A line goes on a line of its own in the current chunk. Where it does not fit
/// there, the chunk is closed and the line opens the next one; in an empty chunk
/// it is cut down. When the last chunk closes, the line is dropped.
pub open spec fn chunk_pushed(
    st: ChunkState,
    line: Seq<char>,
    chunk_chars: nat,
    max_chunks: nat,
) -> (ChunkState, bool) {
    let cleaned = trim_back(line);
    let piece = if st.current.len() == 0 {
        cleaned
    } else {
        "\n"@ + cleaned
    };
    if cleaned.len() == 0 {
        (st, true)
    } else if st.current.len() + piece.len() <= chunk_chars {
        (ChunkState { current: st.current + piece, ..st }, true)
    } else if blank(st.current) {
        let room = if chunk_chars < 4 {
            0
        } else {
            (chunk_chars - 4) as nat
        };
        (ChunkState { current: st.current + clipped(cleaned, room), ..st }, true)
    } else if st.chunks.len() + 1 >= max_chunks {
        let last = if st.current.len() + omitted_mark().len() <= chunk_chars {
            st.current + omitted_mark()
        } else {
            st.current
        };
        (
            ChunkState {
                chunks: st.chunks.push(last),
                current: Seq::empty(),
                truncated: true,
            },
            false,
        )
    } else {
        (ChunkState { chunks: st.chunks.push(st.current), current: cleaned, ..st }, true)
    }
}

/// The state held in three variables.
pub open spec fn chunk_state(chunks: Seq<String>, current: Seq<char>, truncated: bool) -> ChunkState {
    ChunkState { chunks: strs(chunks), current, truncated }
}

/// Offers a line to the chunks; returns whether there is room for more.
pub fn push_chunk_line(
    chunks: &mut Vec<String>,
    current: &mut String,
    line: &str,
    chunk_chars: usize,
    max_chunks: usize,
    truncated: &mut bool,
) -> (r: bool)
    ensures
        (chunk_state(final(chunks)@, final(current)@, *final(truncated)), r) == chunk_pushed(
            chunk_state(old(chunks)@, old(current)@, *old(truncated)),
            line@,
            chunk_chars as nat,
            max_chunks as nat,
        ),
{
    let cleaned = trim_end(line);
    if cleaned.as_str().is_empty() {
        return true;
    }
    let mut piece = String::new();
    if !current.as_str().is_empty() {
        push_text(&mut piece, "\n");
    }
    push_text(&mut piece, cleaned.as_str());
    proof {
        reveal_strlit("\n");
        assert(piece@ =~= if old(current)@.len() == 0 {
            trim_back(line@)
        } else {
            "\n"@ + trim_back(line@)
        });
    }
    let filled: usize = current.as_str().unicode_len();
    let more: usize = piece.as_str().unicode_len();
    if filled <= chunk_chars && more <= chunk_chars - filled {
        push_text(current, piece.as_str());
        return true;
    }
    if is_blank(current.as_str()) {
        let room: usize = if chunk_chars < 4 { 0 } else { chunk_chars - 4 };
        let cut = truncate_line(cleaned.as_str(), room);
        push_text(current, cut.as_str());
        return true;
    }
    if chunks.len() >= max_chunks || chunks.len() + 1 >= max_chunks {
        let marker = "\n... [truncated: additional older context omitted] ...";
        let mut last = current.clone();
        if filled <= chunk_chars && marker.unicode_len() <= chunk_chars - filled {
            push_text(&mut last, marker);
        }
        proof {
            lemma_strs_push(chunks@, last);
        }
        chunks.push(last);
        *current = String::new();
        *truncated = true;
        return false;
    }
    proof {
        lemma_strs_push(chunks@, *current);
    }
    chunks.push(current.clone());
    *current = cleaned;
    true
}

/// Before anything was left out, a chunk is open if and only if lines came in.
pub open spec fn chunks_open(st: ChunkState) -> bool {
    &&& !st.truncated
    &&& st.current.len() == 0 ==> st.chunks.len() == 0
    &&& st.current.len() > 0 ==> !blank(st.current)
}

/// The chunks and the open chunk, joined by newlines.
pub open spec fn chunk_text(st: ChunkState) -> Seq<char> {
    if st.current.len() == 0 {
        joined(st.chunks, "\n"@)
    } else {
        joined(st.chunks.push(st.current), "\n"@)
    }
}

proof fn lemma_trim_back(s: Seq<char>)
    ensures
        trim_back(s).len() > 0 ==> !white(trim_back(s).last()),
        trim_back(s).len() <= s.len(),
        trim_back(s).len() > 0 ==> trim_back(trim_back(s)) == trim_back(s),
    decreases s.len(),
{
    if s.len() > 0 && white(s.last()) {
        lemma_trim_back(s.drop_last());
    }
}

proof fn lemma_ends_black(s: Seq<char>)
    requires
        s.len() > 0,
        !white(s.last()),
    ensures
        !blank(s),
    decreases s.len(),
{
    if white(s[0]) {
        assert(s.len() > 1);
        assert(s.skip(1).last() == s.last());
        lemma_ends_black(s.skip(1));
    }
}

/// While chunks are open, a line that came in either leaves them open or ends
/// the filling.
pub proof fn chunks_stay_open(st: ChunkState, line: Seq<char>, chunk_chars: nat, max_chunks: nat)
    requires
        chunks_open(st),
        chunk_chars >= 5,
    ensures
        chunk_pushed(st, line, chunk_chars, max_chunks).1 ==> chunks_open(
            chunk_pushed(st, line, chunk_chars, max_chunks).0,
        ),
        !chunk_pushed(st, line, chunk_chars, max_chunks).1 ==> chunk_pushed(
            st,
            line,
            chunk_chars,
            max_chunks,
        ).0.truncated,
{
    let cleaned = trim_back(line);
    let out = chunk_pushed(st, line, chunk_chars, max_chunks).0;
    reveal_strlit("...");
    lemma_trim_back(line);
    if cleaned.len() > 0 && chunk_pushed(st, line, chunk_chars, max_chunks).1 {
        assert(out.current.len() > 0);
        assert(out.current.last() == cleaned.last() || out.current.last() == "..."@[2]);
        lemma_ends_black(out.current);
    }
}

/// Lines are neither lost nor reordered while there is room: the chunks joined
/// by newlines are the lines joined by newlines.
pub proof fn chunks_keep_lines(st: ChunkState, line: Seq<char>, chunk_chars: nat, max_chunks: nat)
    requires
        chunks_open(st),
        trim_back(line).len() <= chunk_chars,
        chunk_pushed(st, line, chunk_chars, max_chunks).1,
    ensures
        ({
            let out = chunk_pushed(st, line, chunk_chars, max_chunks).0;
            &&& trim_back(line).len() == 0 ==> out == st
            &&& trim_back(line).len() > 0 && st.current.len() == 0 ==> chunk_text(out) == trim_back(
                line,
            )
            &&& trim_back(line).len() > 0 && st.current.len() > 0 ==> chunk_text(out) == chunk_text(
                st,
            ) + "\n"@ + trim_back(line)
        }),
{
    let cleaned = trim_back(line);
    let out = chunk_pushed(st, line, chunk_chars, max_chunks).0;
    if cleaned.len() > 0 {
        if st.current.len() == 0 {
            assert(out.current =~= cleaned);
            assert(out.chunks.push(out.current) =~= seq![cleaned]);
        } else {
            let piece = "\n"@ + cleaned;
            let all = st.chunks.push(st.current);
            assert(all.drop_last() =~= st.chunks);
            if st.current.len() + piece.len() <= chunk_chars {
                let both = st.chunks.push(st.current + piece);
                assert(both.drop_last() =~= st.chunks);
                assert(joined(both, "\n"@) =~= joined(all, "\n"@) + "\n"@ + cleaned);
            } else {
                let both = all.push(cleaned);
                assert(both.drop_last() =~= all);
            }
        }
    }
}

/// No chunk outgrows its size as long as no line does.
pub proof fn chunks_stay_small(st: ChunkState, line: Seq<char>, chunk_chars: nat, max_chunks: nat)
    requires
        st.current.len() <= chunk_chars,
        st.current.len() > 0 ==> !blank(st.current),
        forall|i: int| 0 <= i < st.chunks.len() ==> (#[trigger] st.chunks[i]).len() <= chunk_chars,
        trim_back(line).len() <= chunk_chars,
    ensures
        ({
            let out = chunk_pushed(st, line, chunk_chars, max_chunks).0;
            &&& out.current.len() <= chunk_chars
            &&& out.current.len() > 0 ==> !blank(out.current)
            &&& forall|i: int|
                0 <= i < out.chunks.len() ==> (#[trigger] out.chunks[i]).len() <= chunk_chars
        }),
{
    reveal_strlit("\n");
    lemma_trim_back(line);
    let out = chunk_pushed(st, line, chunk_chars, max_chunks).0;
    if trim_back(line).len() > 0 && out.current.len() > 0 {
        assert(out.current.last() == trim_back(line).last());
        lemma_ends_black(out.current);
    }
}

/// A text that was cut ends in three dots behind as many characters as there may be.
pub proof fn cuts_are_marked(s: Seq<char>, max: nat)
    ensures
        s.len() > max ==> clipped(s, max) == s.take(max as int) + seq!['.', '.', '.'],
        s.len() <= max ==> clipped(s, max) == s,
{
    reveal_strlit("...");
    assert("..."@ =~= seq!['.', '.', '.']);
}

/// As many first lines as fit are kept, in order. Where lines are left out and there is room
/// for it, a mark follows; where not even one line fits, one line says that nothing was
/// found.
pub proof fn as_many_lines_as_fit_are_kept(
    lines: Seq<Seq<char>>,
    k: int,
    max_lines: nat,
    max_chars: nat,
)
    requires
        0 <= k <= lines.len(),
        k <= max_lines,
        joined(lines.take(k), "\n"@).len() <= max_chars,
        k < lines.len() ==> k + 1 > max_lines || joined(lines.take(k + 1), "\n"@).len()
            > max_chars,
    ensures
        ({
            let out = packed(lines, max_lines, max_chars);
            &&& k == 0 ==> out == seq!["No relevant indexed shell context was found."@]
            &&& k > 0 ==> out.take(k) == lines.take(k) && k <= out.len() <= k + 1
            &&& k > 0 && k == lines.len() ==> out.len() == k
            &&& 0 < k < lines.len() ==> (out.len() == k + 1 <==> k < max_lines && joined(
                lines.take(k),
                "\n"@,
            ).len() + 37 <= max_chars)
            &&& out.len() == k + 1 && k > 0 ==> out.last()
                == "... context truncated for budget ..."@
        }),
{
    lemma_width_joined(lines.take(k));
    if k < lines.len() {
        lemma_width_joined(lines.take(k + 1));
    }
    lemma_fitting(lines, k, max_lines, max_chars);
    reveal_strlit("... context truncated for budget ...");
    assert(budget_mark().len() == 36);
    let out = packed(lines, max_lines, max_chars);
    if k > 0 {
        assert(lines.take(k).len() == k);
        assert(out.take(k) =~= lines.take(k));
    }
}

/// A line goes into the open chunk where there is room for it, behind a line feed if it is
/// not the first; a blank one changes nothing. Where there is no room, the chunk is
/// closed and the line opens the next; where no chunk may follow, the filling ends and
/// it is noted that something was left out.
pub proof fn lines_go_where_there_is_room(
    st: ChunkState,
    line: Seq<char>,
    chunk_chars: nat,
    max_chunks: nat,
)
    requires
        line.len() > 0,
        !white(line.last()),
    ensures
        ({
            let (next, more) = chunk_pushed(st, line, chunk_chars, max_chunks);
            let needed = if st.current.len() == 0 {
                line.len()
            } else {
                st.current.len() + 1 + line.len()
            };
            &&& needed <= chunk_chars && st.current.len() == 0 ==> more && next == (ChunkState {
                current: line,
                ..st
            })
            &&& needed <= chunk_chars && st.current.len() > 0 ==> more && next == (ChunkState {
                current: st.current + seq!['\n'] + line,
                ..st
            })
            &&& needed > chunk_chars && !blank(st.current) && st.chunks.len() + 1 < max_chunks
                ==> more && next == (ChunkState {
                chunks: st.chunks.push(st.current),
                current: line,
                ..st
            })
            &&& needed > chunk_chars && !blank(st.current) && st.chunks.len() + 1 >= max_chunks
                ==> {
                &&& !more
                &&& next.truncated
                &&& next.current.len() == 0
                &&& next.chunks.len() == st.chunks.len() + 1
                &&& next.chunks.take(st.chunks.len() as int) == st.chunks
                &&& next.chunks.last().take(st.current.len() as int) == st.current
            }
        }),
{
    reveal_strlit("\n");
    assert("\n"@ =~= seq!['\n']);
    assert(trim_back(line) == line);
    let (next, more) = chunk_pushed(st, line, chunk_chars, max_chunks);
    assert(st.current + ("\n"@ + line) =~= st.current + seq!['\n'] + line);
    if st.current.len() == 0 {
        assert(st.current + line =~= line);
    }
    if !more {
        assert(next.chunks.take(st.chunks.len() as int) =~= st.chunks);
        assert(next.chunks.last().take(st.current.len() as int) =~= st.current);
    }
}

/// A blank line changes nothing, and there is still room.
pub proof fn blank_lines_take_no_room(
    st: ChunkState,
    line: Seq<char>,
    chunk_chars: nat,
    max_chunks: nat,
)
    requires
        all_white(line),
    ensures
        chunk_pushed(st, line, chunk_chars, max_chunks) == (st, true),
    decreases line.len(),
{
    if line.len() > 0 {
        assert(white(line[line.len() - 1]));
        assert forall|i: int| 0 <= i < line.drop_last().len() implies white(
            #[trigger] line.drop_last()[i],
        ) by {
            assert(white(line[i]));
        }
        blank_lines_take_no_room(st, line.drop_last(), chunk_chars, max_chunks);
        assert(trim_back(line) == trim_back(line.drop_last()));
    }
    lemma_all_white(line);
}

proof fn lemma_all_white(line: Seq<char>)
    requires
        all_white(line),
    ensures
        trim_back(line).len() == 0,
    decreases line.len(),
{
    if line.len() > 0 {
        assert(white(line[line.len() - 1]));
        assert forall|i: int| 0 <= i < line.drop_last().len() implies white(
            #[trigger] line.drop_last()[i],
        ) by {
            assert(white(line[i]));
        }
        lemma_all_white(line.drop_last());
    }
}

} // verus!
