//! Cutting a long text into messages.

use vstd::prelude::*;

use crate::text;

verus! {

// ---------------------------------------------------------------------------
// Where a text is cut
// ---------------------------------------------------------------------------

/// Whether the first `k` characters of `s` take exactly `n` bytes.
pub open spec fn takes_bytes(s: Seq<char>, n: nat, k: int) -> bool {
    0 <= k <= s.len() && text::byte_len(s.take(k)) == n
}

/// Whether byte `n` of `s` lies between two characters.
pub open spec fn is_boundary(s: Seq<char>, n: nat) -> bool {
    exists|k: int| takes_bytes(s, n, k)
}

/// The first `n` bytes of `s`, where byte `n` lies between two characters.
pub open spec fn window(s: Seq<char>, n: nat) -> Seq<char> {
    s.take(choose|k: int| takes_bytes(s, n, k))
}

/// The last position of `c` in `s`.
pub open spec fn last_position(s: Seq<char>, c: char) -> Option<int>
    decreases s.len(),
{
    if s.len() == 0 {
        None
    } else if s.last() == c {
        Some(s.len() - 1)
    } else {
        last_position(s.drop_last(), c)
    }
}

/// How many characters of a window go into a chunk: those before its last line
/// feed, else those before its last space, else all of them; at least one.
pub open spec fn cut(w: Seq<char>) -> int {
    let at = match last_position(w, '\n') {
        Some(i) => i,
        None => match last_position(w, ' ') {
            Some(i) => i,
            None => w.len() as int,
        },
    };
    if at < 1 {
        1
    } else {
        at
    }
}

/// What is left of `s` once its first chunk is taken off.
pub open spec fn after_cut(s: Seq<char>, max_len: nat) -> Seq<char> {
    text::trim_start(s.skip(cut(window(s, max_len))))
}

/// Whether every cut of `s` into chunks of `max_len` bytes falls between two
/// characters.
pub open spec fn cuttable(s: Seq<char>, max_len: nat) -> bool
    decreases s.len(),
    via cuttable_decreases
{
    text::byte_len(s) <= max_len || {
        &&& 0 < max_len
        &&& is_boundary(s, max_len)
        &&& cuttable(after_cut(s, max_len), max_len)
    }
}

#[via_fn]
proof fn cuttable_decreases(s: Seq<char>, max_len: nat) {
    if 0 < max_len && is_boundary(s, max_len) {
        lemma_after_cut_shorter(s, max_len);
    }
}

/// The chunks of a text that may be shorter than one.
pub open spec fn pieces(s: Seq<char>, max_len: nat) -> Seq<Seq<char>>
    decreases s.len(),
    via pieces_decreases
{
    if text::byte_len(s) <= max_len || max_len == 0 || !is_boundary(s, max_len) {
        if s.len() == 0 {
            seq![]
        } else {
            seq![s]
        }
    } else {
        seq![text::trim_end(s.take(cut(window(s, max_len))))] + pieces(
            after_cut(s, max_len),
            max_len,
        )
    }
}

#[via_fn]
proof fn pieces_decreases(s: Seq<char>, max_len: nat) {
    if 0 < max_len && is_boundary(s, max_len) {
        lemma_after_cut_shorter(s, max_len);
    }
}

/// The chunks of `s`, none of them longer than `max_len` bytes. A limit of 0 is
/// no limit.
pub open spec fn chunks(s: Seq<char>, max_len: nat) -> Seq<Seq<char>> {
    if s.len() == 0 || max_len == 0 || text::byte_len(s) <= max_len {
        seq![s]
    } else {
        pieces(s, max_len)
    }
}

/// Whether `s` can be cut into chunks of `max_len` bytes.
pub open spec fn chunkable(s: Seq<char>, max_len: nat) -> bool {
    max_len == 0 || cuttable(s, max_len)
}

// ---------------------------------------------------------------------------
// Facts about cuts
// ---------------------------------------------------------------------------

proof fn lemma_trim_start_len(s: Seq<char>)
    ensures
        text::trim_start(s).len() <= s.len(),
    decreases s.len(),
{
    if s.len() > 0 && text::is_space(s[0]) {
        lemma_trim_start_len(s.drop_first());
    }
}

proof fn lemma_boundary_unique(s: Seq<char>, n: nat, j: int, k: int)
    requires
        takes_bytes(s, n, j),
        takes_bytes(s, n, k),
    ensures
        j == k,
{
    if j < k {
        text::lemma_byte_len_take(s, j, k);
    } else if k < j {
        text::lemma_byte_len_take(s, k, j);
    }
}

proof fn lemma_window(s: Seq<char>, n: nat, k: int)
    requires
        takes_bytes(s, n, k),
    ensures
        window(s, n) == s.take(k),
        is_boundary(s, n),
{
    let j = choose|j: int| takes_bytes(s, n, j);
    lemma_boundary_unique(s, n, j, k);
}

proof fn lemma_last_position_in(s: Seq<char>, c: char)
    ensures
        last_position(s, c) matches Some(i) ==> 0 <= i < s.len(),
    decreases s.len(),
{
    if s.len() > 0 && s.last() != c {
        lemma_last_position_in(s.drop_last(), c);
    }
}

proof fn lemma_cut_in(s: Seq<char>, max_len: nat)
    requires
        0 < max_len,
        is_boundary(s, max_len),
    ensures
        1 <= cut(window(s, max_len)) <= window(s, max_len).len() <= s.len(),
        text::byte_len(window(s, max_len)) == max_len,
{
    let k = choose|k: int| takes_bytes(s, max_len, k);
    let w = window(s, max_len);
    if k == 0 {
        assert(s.take(0) == Seq::<char>::empty());
        assert(false);
    }
    lemma_last_position_in(w, '\n');
    lemma_last_position_in(w, ' ');
}

proof fn lemma_after_cut_shorter(s: Seq<char>, max_len: nat)
    requires
        0 < max_len,
        is_boundary(s, max_len),
    ensures
        after_cut(s, max_len).len() < s.len(),
{
    lemma_cut_in(s, max_len);
    lemma_trim_start_len(s.skip(cut(window(s, max_len))));
}

// ---------------------------------------------------------------------------
// Cutting
// ---------------------------------------------------------------------------

/// What a step through a text comes to.
enum Step {
    /// What is left fits into one chunk.
    Fits,
    /// The next chunk would have to end inside a character.
    Inside,
    /// The next chunk ends before this position.
    Cut(usize),
}

fn last_from(v: &Vec<char>, from: usize, to: usize, c: char) -> (r: Option<usize>)
    requires
        from <= to <= v@.len(),
    ensures
        match r {
            Some(i) => from <= i < to && last_position(v@.subrange(from as int, to as int), c)
                == Some(i - from),
            None => last_position(v@.subrange(from as int, to as int), c) is None,
        },
{
    let mut i: usize = to;
    while i > from
        invariant
            from <= i <= to <= v@.len(),
            last_position(v@.subrange(from as int, to as int), c) == last_position(
                v@.subrange(from as int, i as int),
                c,
            ),
        decreases i,
    {
        let ghost s = v@.subrange(from as int, i as int);
        proof {
            assert(s.drop_last() == v@.subrange(from as int, i - 1));
        }
        if v[i - 1] == c {
            return Some(i - 1);
        }
        i = i - 1;
    }
    None
}

/// One step of the cutting, from position `from` on.
fn step(v: &Vec<char>, from: usize, max_len: usize) -> (r: Step)
    requires
        from <= v@.len(),
        0 < max_len,
    ensures
        ({
            let s = v@.skip(from as int);
            match r {
                Step::Fits => text::byte_len(s) <= max_len,
                Step::Inside => text::byte_len(s) > max_len && !is_boundary(s, max_len as nat),
                Step::Cut(k) => {
                    &&& text::byte_len(s) > max_len
                    &&& is_boundary(s, max_len as nat)
                    &&& from < k <= v@.len()
                    &&& k - from == cut(window(s, max_len as nat))
                },
            }
        }),
{
    let ghost s = v@.skip(from as int);
    let n: usize = v.len();
    let mut used: usize = 0;
    let mut i: usize = from;
    proof {
        assert(s.take(0) == Seq::<char>::empty());
    }
    while i < n
        invariant
            n == v@.len(),
            from <= i <= n,
            0 < max_len,
            s == v@.skip(from as int),
            used == text::byte_len(s.take(i - from)),
            used <= max_len,
        decreases n - i,
    {
        let w = text::width_of(v[i]);
        proof {
            text::lemma_byte_len_take(s, i - from, i - from + 1);
            assert(s.subrange(i - from, i - from + 1) == seq![v@[i as int]]);
            text::lemma_byte_len_one(v@[i as int]);
            text::lemma_byte_len_take(s, i - from + 1, s.len() as int);
            assert(s.take(s.len() as int) == s);
        }
        if max_len - used < w {
            if used < max_len {
                proof {
                    if is_boundary(s, max_len as nat) {
                        let k = choose|k: int| takes_bytes(s, max_len as nat, k);
                        if k <= i - from {
                            text::lemma_byte_len_take(s, k, i - from);
                        } else {
                            text::lemma_byte_len_take(s, i - from + 1, k);
                        }
                    }
                }
                return Step::Inside;
            }
            proof {
                assert(takes_bytes(s, max_len as nat, i - from));
                lemma_window(s, max_len as nat, i - from);
                lemma_cut_in(s, max_len as nat);
                assert(s.take(i - from) == v@.subrange(from as int, i as int));
            }
            let at = match last_from(v, from, i, '\n') {
                Some(p) => p,
                None => match last_from(v, from, i, ' ') {
                    Some(p) => p,
                    None => i,
                },
            };
            let at = if at == from {
                from + 1
            } else {
                at
            };
            return Step::Cut(at);
        }
        used = used + w;
        i = i + 1;
    }
    proof {
        assert(s.take(s.len() as int) == s);
    }
    Step::Fits
}

/// Whether a text can be cut into chunks of `max_len` bytes: no chunk would
/// have to end inside a character.
pub fn can_chunk(text: &str, max_len: usize) -> (r: bool)
    ensures
        r == chunkable(text@, max_len as nat),
{
    if max_len == 0 {
        return true;
    }
    let v = text::chars_of(text);
    let n: usize = v.len();
    let mut pos: usize = 0;
    proof {
        assert(v@.skip(0) == v@);
    }
    loop
        invariant
            n == v@.len(),
            v@ == text@,
            pos <= n,
            0 < max_len,
            cuttable(v@, max_len as nat) == cuttable(v@.skip(pos as int), max_len as nat),
        ensures
            cuttable(v@, max_len as nat),
        decreases n - pos,
    {
        let ghost s = v@.skip(pos as int);
        match step(&v, pos, max_len) {
            Step::Fits => {
                break;
            },
            Step::Inside => {
                return false;
            },
            Step::Cut(k) => {
                let next = text::trimmed_start(&v, k, n);
                proof {
                    assert(s.skip(k - pos) == v@.subrange(k as int, n as int));
                    assert(v@.skip(next as int) == v@.subrange(next as int, n as int));
                }
                pos = next;
            },
        }
    }
    true
}

/// Cuts a text into chunks of at most `max_len` bytes, at line feeds or spaces
/// where it can.
#[must_use]
pub fn chunk_message(text: &str, max_len: usize) -> (r: Vec<String>)
    requires
        chunkable(text@, max_len as nat),
    ensures
        r@.map_values(|c: String| c@) == chunks(text@, max_len as nat),
{
    let v = text::chars_of(text);
    let n: usize = v.len();
    let mut out: Vec<String> = Vec::new();
    if n == 0 || max_len == 0 {
        out.push(text.to_owned());
        proof {
            assert(out@.map_values(|c: String| c@) =~= seq![text@]);
        }
        return out;
    }
    let mut pos: usize = 0;
    proof {
        assert(v@.skip(0) == v@);
    }
    loop
        invariant_except_break
            n == v@.len(),
            v@ == text@,
            pos <= n,
            0 < max_len,
            cuttable(v@.skip(pos as int), max_len as nat),
            pieces(v@, max_len as nat) == out@.map_values(|c: String| c@) + pieces(
                v@.skip(pos as int),
                max_len as nat,
            ),
        ensures
            pieces(v@, max_len as nat) == out@.map_values(|c: String| c@),
        decreases n - pos,
    {
        let ghost s = v@.skip(pos as int);
        let ghost before = out@;
        match step(&v, pos, max_len) {
            Step::Fits => {
                if pos < n {
                    out.push(text::string_of(&v, pos, n));
                    proof {
                        assert(s == v@.subrange(pos as int, n as int));
                    }
                }
                proof {
                    assert(out@.map_values(|c: String| c@) =~= before.map_values(|c: String| c@)
                        + pieces(s, max_len as nat));
                }
                break;
            },
            Step::Inside => {
                break;
            },
            Step::Cut(k) => {
                let end = text::trimmed_end(&v, pos, k);
                let next = text::trimmed_start(&v, k, n);
                out.push(text::string_of(&v, pos, end));
                proof {
                    assert(s.take(k - pos) == v@.subrange(pos as int, k as int));
                    assert(s.skip(k - pos) == v@.subrange(k as int, n as int));
                    assert(v@.skip(next as int) == v@.subrange(next as int, n as int));
                    assert(out@.map_values(|c: String| c@) =~= before.map_values(|c: String| c@)
                        + seq![text::trim_end(s.take(k - pos))]);
                    assert(pieces(v@, max_len as nat) =~= out@.map_values(|c: String| c@)
                        + pieces(v@.skip(next as int), max_len as nat));
                }
                pos = next;
            },
        }
    }
    out
}

// ---------------------------------------------------------------------------
// Laws
// ---------------------------------------------------------------------------

/// Whether `s` begins with `part` and `gap` characters of white space after it.
pub open spec fn begins_with(s: Seq<char>, part: Seq<char>, gap: int) -> bool {
    &&& 0 <= gap
    &&& part.len() + gap <= s.len()
    &&& s.take(part.len() as int) == part
    &&& forall|i: int| part.len() <= i < part.len() + gap ==> text::is_space(s[i])
}

/// Whether `s` is the parts one after another, with nothing but white space
/// between them and behind the last.
pub open spec fn rejoins(s: Seq<char>, parts: Seq<Seq<char>>) -> bool
    decreases parts.len(),
{
    if parts.len() == 0 {
        s.len() == 0
    } else {
        exists|gap: int| #[trigger]
            begins_with(s, parts[0], gap) && rejoins(
                s.skip(parts[0].len() + gap),
                parts.skip(1),
            )
    }
}

proof fn lemma_trim_end_prefix(s: Seq<char>)
    ensures
        text::trim_end(s).len() <= s.len(),
        s.take(text::trim_end(s).len() as int) == text::trim_end(s),
        forall|i: int| text::trim_end(s).len() <= i < s.len() ==> text::is_space(s[i]),
    decreases s.len(),
{
    if s.len() > 0 && text::is_space(s.last()) {
        let t = s.drop_last();
        lemma_trim_end_prefix(t);
        let n = text::trim_end(s).len() as int;
        assert(s.take(n) == t.take(n));
        assert forall|i: int| n <= i < s.len() implies text::is_space(s[i]) by {
            if i < t.len() {
                assert(t[i] == s[i]);
            }
        }
    } else {
        assert(s.take(s.len() as int) == s);
    }
}

proof fn lemma_trim_start_suffix(s: Seq<char>)
    ensures
        text::trim_start(s).len() <= s.len(),
        s.skip(s.len() - text::trim_start(s).len()) == text::trim_start(s),
        forall|i: int|
            0 <= i < s.len() - text::trim_start(s).len() ==> text::is_space(s[i]),
    decreases s.len(),
{
    if s.len() > 0 && text::is_space(s[0]) {
        let t = s.drop_first();
        lemma_trim_start_suffix(t);
        let n = s.len() - text::trim_start(s).len();
        assert(s.skip(n) == t.skip(n - 1));
        assert forall|i: int| 0 <= i < n implies text::is_space(s[i]) by {
            if i > 0 {
                assert(t[i - 1] == s[i]);
            }
        }
    } else {
        assert(s.skip(0) == s);
    }
}

proof fn lemma_pieces_rejoin(s: Seq<char>, max_len: nat)
    ensures
        rejoins(s, pieces(s, max_len)),
    decreases s.len(),
{
    let parts = pieces(s, max_len);
    if text::byte_len(s) <= max_len || max_len == 0 || !is_boundary(s, max_len) {
        if s.len() > 0 {
            assert(s.take(s.len() as int) == s);
            assert(begins_with(s, parts[0], 0));
            assert(s.skip(parts[0].len() + 0int).len() == 0);
            assert(rejoins(s.skip(parts[0].len() + 0int), parts.skip(1)));
        }
    } else {
        lemma_cut_in(s, max_len);
        lemma_after_cut_shorter(s, max_len);
        let k = cut(window(s, max_len));
        let head = s.take(k);
        let tail = s.skip(k);
        let rest = after_cut(s, max_len);
        lemma_trim_end_prefix(head);
        lemma_trim_start_suffix(tail);
        lemma_pieces_rejoin(rest, max_len);
        let first = text::trim_end(head);
        let gap = (head.len() - first.len()) + (tail.len() - rest.len());
        assert(parts[0] == first);
        assert(parts.skip(1) =~= pieces(rest, max_len));
        assert(s.take(first.len() as int) == head.take(first.len() as int));
        assert forall|i: int| first.len() <= i < first.len() + gap implies text::is_space(s[i]) by {
            if i < k {
                assert(head[i] == s[i]);
            } else {
                assert(tail[i - k] == s[i]);
            }
        }
        assert(begins_with(s, parts[0], gap));
        assert(s.skip(first.len() + gap) =~= tail.skip(tail.len() - rest.len()));
    }
}

proof fn lemma_pieces_fit(s: Seq<char>, max_len: nat)
    requires
        0 < max_len,
        cuttable(s, max_len),
    ensures
        forall|i: int|
            0 <= i < pieces(s, max_len).len() ==> text::byte_len(#[trigger] pieces(s, max_len)[i])
                <= max_len,
    decreases s.len(),
{
    if text::byte_len(s) > max_len {
        lemma_cut_in(s, max_len);
        lemma_after_cut_shorter(s, max_len);
        let w = window(s, max_len);
        let k = cut(w);
        let head = s.take(k);
        let rest = after_cut(s, max_len);
        lemma_pieces_fit(rest, max_len);
        lemma_trim_end_prefix(head);
        let first = text::trim_end(head);
        assert(w.take(first.len() as int) == head.take(first.len() as int));
        text::lemma_byte_len_take(w, first.len() as int, w.len() as int);
        assert(w.take(w.len() as int) == w);
        let parts = pieces(s, max_len);
        let more = pieces(rest, max_len);
        assert forall|i: int| 0 <= i < parts.len() implies text::byte_len(#[trigger] parts[i])
            <= max_len by {
            if i > 0 {
                assert(parts[i] == more[i - 1]);
            }
        }
    }
}

/// No chunk takes more bytes than the limit.
pub proof fn law_chunks_fit(s: Seq<char>, max_len: nat)
    requires
        0 < max_len,
        chunkable(s, max_len),
    ensures
        forall|i: int|
            0 <= i < chunks(s, max_len).len() ==> text::byte_len(#[trigger] chunks(s, max_len)[i])
                <= max_len,
{
    if s.len() == 0 {
        assert(s =~= Seq::<char>::empty());
    }
    lemma_pieces_fit(s, max_len);
}

/// Chunking loses nothing but white space, and that only where it cuts: the
/// chunks, with white space between them, are the text.
pub proof fn law_chunks_rejoin(s: Seq<char>, max_len: nat)
    ensures
        rejoins(s, chunks(s, max_len)),
{
    if s.len() == 0 || max_len == 0 || text::byte_len(s) <= max_len {
        let parts = chunks(s, max_len);
        assert(s.take(s.len() as int) == s);
        assert(begins_with(s, parts[0], 0));
        assert(s.skip(parts[0].len() + 0int).len() == 0);
        assert(rejoins(s.skip(parts[0].len() + 0int), parts.skip(1)));
    } else {
        lemma_pieces_rejoin(s, max_len);
    }
}

/// There is always a chunk, and a text within the limit is its only one.
pub proof fn law_chunks_at_least_one(s: Seq<char>, max_len: nat)
    ensures
        chunks(s, max_len).len() >= 1,
        text::byte_len(s) <= max_len ==> chunks(s, max_len) == seq![s],
{
}

proof fn lemma_trim_edges(s: Seq<char>)
    ensures
        text::trim_start(s).len() > 0 ==> !text::is_space(text::trim_start(s)[0]),
        text::trim_end(s).len() > 0 ==> !text::is_space(text::trim_end(s).last()),
    decreases s.len(),
{
    if s.len() > 0 {
        if text::is_space(s[0]) {
            lemma_trim_edges(s.drop_first());
        }
        if text::is_space(s.last()) {
            lemma_trim_edges(s.drop_last());
        }
    }
}

/// Whether a chunk begins with something other than white space.
pub open spec fn begins_clean(part: Seq<char>) -> bool {
    part.len() > 0 && !text::is_space(part[0])
}

/// Whether a chunk, if it is not empty, ends in something other than white
/// space.
pub open spec fn ends_clean(part: Seq<char>) -> bool {
    part.len() > 0 ==> !text::is_space(part.last())
}

proof fn lemma_piece_edges(s: Seq<char>, max_len: nat)
    requires
        0 < max_len,
    ensures
        ({
            let parts = pieces(s, max_len);
            &&& begins_clean(s) ==> forall|i: int|
                0 <= i < parts.len() ==> begins_clean(#[trigger] parts[i])
            &&& forall|i: int| 0 < i < parts.len() ==> begins_clean(#[trigger] parts[i])
            &&& forall|i: int| 0 <= i < parts.len() - 1 ==> ends_clean(#[trigger] parts[i])
        }),
    decreases s.len(),
{
    let parts = pieces(s, max_len);
    if text::byte_len(s) > max_len && is_boundary(s, max_len) {
        lemma_cut_in(s, max_len);
        lemma_after_cut_shorter(s, max_len);
        let w = window(s, max_len);
        let head = s.take(cut(w));
        let rest = after_cut(s, max_len);
        let more = pieces(rest, max_len);
        lemma_trim_edges(head);
        lemma_trim_edges(s.skip(cut(w)));
        lemma_piece_edges(rest, max_len);
        let first = text::trim_end(head);
        lemma_trim_end_prefix(head);
        if begins_clean(s) {
            assert(head[0] == s[0]);
            if first.len() == 0 {
                assert(text::is_space(head[0]));
            }
            assert(first[0] == head[0]) by {
                assert(head.take(first.len() as int)[0] == head[0]);
            }
        }
        assert(more.len() > 0 ==> rest.len() > 0);
        assert forall|i: int| 0 < i < parts.len() implies begins_clean(#[trigger] parts[i]) by {
            assert(parts[i] == more[i - 1]);
        }
        assert forall|i: int| 0 <= i < parts.len() - 1 implies ends_clean(#[trigger] parts[i]) by {
            if i > 0 {
                assert(parts[i] == more[i - 1]);
            }
        }
        assert(parts[0] == first);
    }
}

/// No chunk but the first begins with white space or is empty, and none but the
/// last ends in white space.
pub proof fn law_chunk_edges(s: Seq<char>, max_len: nat)
    ensures
        forall|i: int|
            0 < i < chunks(s, max_len).len() ==> begins_clean(#[trigger] chunks(s, max_len)[i]),
        forall|i: int|
            0 <= i < chunks(s, max_len).len() - 1 ==> ends_clean(
                #[trigger] chunks(s, max_len)[i],
            ),
{
    if max_len > 0 {
        lemma_piece_edges(s, max_len);
    }
}

/// Whether a text is cut as late as it can be before its `m`th character, where
/// its first `k` characters are those that fit: at the last line feed of them,
/// else at the last space, else behind all of them; but not before the first.
pub open spec fn is_late_cut(s: Seq<char>, k: int, m: int) -> bool {
    &&& 1 <= m <= k
    &&& if exists|j: int| 0 <= j < k && s[j] == '\n' {
        &&& m < k && s[m] == '\n' || m == 1 && s[0] == '\n'
        &&& forall|j: int| m < j < k ==> s[j] != '\n'
    } else if exists|j: int| 0 <= j < k && s[j] == ' ' {
        &&& m < k && s[m] == ' ' || m == 1 && s[0] == ' '
        &&& forall|j: int| m < j < k ==> s[j] != ' '
    } else {
        m == k
    }
}

proof fn lemma_last_position(s: Seq<char>, c: char)
    ensures
        match last_position(s, c) {
            Some(i) => 0 <= i < s.len() && s[i] == c && forall|j: int| i < j < s.len() ==> s[j]
                != c,
            None => forall|j: int| 0 <= j < s.len() ==> s[j] != c,
        },
    decreases s.len(),
{
    if s.len() > 0 && s.last() != c {
        let t = s.drop_last();
        lemma_last_position(t, c);
        assert forall|j: int| 0 <= j < t.len() implies t[j] == s[j] by {}
    }
}

/// A text that is too long is cut as late as it can be. What stands before the
/// cut, without white space at its end, is the first chunk; what stands behind
/// it, without white space at its beginning, makes the other chunks, if there is
/// anything of it, as it does by itself. The text can be cut exactly where the
/// limit falls between two characters and what is left can be cut.
pub proof fn law_cut_late(s: Seq<char>, max_len: nat, k: int) -> (m: int)
    requires
        0 < max_len < text::byte_len(s),
        0 <= k <= s.len(),
        text::byte_len(s.take(k)) == max_len,
    ensures
        is_late_cut(s, k, m),
        ({
            let all = chunks(s, max_len);
            let rest = text::trim_start(s.skip(m));
            &&& all.len() >= 1
            &&& all[0] == text::trim_end(s.take(m))
            &&& all.skip(1) == if rest.len() == 0 {
                Seq::empty()
            } else {
                chunks(rest, max_len)
            }
            &&& chunkable(s, max_len) <==> chunkable(rest, max_len)
        }),
{
    assert(takes_bytes(s, max_len, k));
    lemma_window(s, max_len, k);
    lemma_cut_in(s, max_len);
    let w = s.take(k);
    let m = cut(w);
    lemma_last_position(w, '\n');
    lemma_last_position(w, ' ');
    assert forall|j: int| 0 <= j < k implies w[j] == s[j] by {}
    if let Some(i) = last_position(w, '\n') {
        assert(s[i] == '\n');
    } else if let Some(i) = last_position(w, ' ') {
        assert(s[i] == ' ');
    }
    let rest = after_cut(s, max_len);
    let all = chunks(s, max_len);
    assert(all.skip(1) =~= pieces(rest, max_len));
    if rest.len() == 0 {
        assert(rest =~= Seq::<char>::empty());
        assert(text::byte_len(rest) == 0);
    }
    m
}

/// A limit inside a character cannot be kept: a text that is too long and has no
/// character boundary there cannot be cut. No limit, and a text within it, need
/// no cut.
pub proof fn law_what_can_be_cut(s: Seq<char>, max_len: nat)
    ensures
        max_len == 0 || text::byte_len(s) <= max_len ==> chunkable(s, max_len) && chunks(s, max_len)
            == seq![s],
        0 < max_len < text::byte_len(s) && (forall|k: int|
            0 <= k <= s.len() ==> text::byte_len(#[trigger] s.take(k)) != max_len) ==> !chunkable(
            s,
            max_len,
        ),
{
    if 0 < max_len < text::byte_len(s) && is_boundary(s, max_len) {
        let k = choose|k: int| takes_bytes(s, max_len, k);
        assert(text::byte_len(s.take(k)) == max_len);
    }
}

/// A text of ASCII characters alone can be cut for every limit.
pub proof fn law_ascii_is_chunkable(s: Seq<char>, max_len: nat)
    requires
        vstd::utf8::is_ascii_chars(s),
    ensures
        chunkable(s, max_len),
    decreases s.len(),
{
    if max_len > 0 && text::byte_len(s) > max_len {
        vstd::utf8::is_ascii_chars_encode_utf8(s);
        let head = s.take(max_len as int);
        assert(vstd::utf8::is_ascii_chars(head));
        vstd::utf8::is_ascii_chars_encode_utf8(head);
        assert(takes_bytes(s, max_len, max_len as int));
        lemma_after_cut_shorter(s, max_len);
        lemma_cut_in(s, max_len);
        let tail = s.skip(cut(window(s, max_len)));
        lemma_trim_start_suffix(tail);
        let rest = after_cut(s, max_len);
        assert forall|i: int| 0 <= i < rest.len() implies '\0' <= #[trigger] rest[i]
            <= '\u{7f}' by {
            assert(rest[i] == tail[i + tail.len() - rest.len()]);
            assert(rest[i] == s[i + s.len() - rest.len()]);
        }
        law_ascii_is_chunkable(rest, max_len);
    }
}

} // verus!
