//! Markdown to Slack's `mrkdwn`.

use vstd::prelude::*;

pub use crate::chunk::chunk_message;
use crate::text;

verus! {

/// The longest text that Slack takes in one message.
pub const SLACK_MAX_MESSAGE_LEN: usize = 40_000;

/// The chunk size for messages where an account asks for less.
pub const SLACK_DEFAULT_CHUNK_SIZE: usize = 4_000;

/// Stands for the `*` that opens a bold span until the last step.
pub const BOLD_OPEN: char = '\u{1}';

/// Stands for the `*` that closes a bold span until the last step.
pub const BOLD_CLOSE: char = '\u{2}';

// ---------------------------------------------------------------------------
// What each step does
// ---------------------------------------------------------------------------

/// A line without the carriage return that it ends in.
pub open spec fn without_cr(line: Seq<char>) -> Seq<char> {
    if line.len() > 0 && line.last() == '\r' {
        line.drop_last()
    } else {
        line
    }
}

/// Three backticks: what opens and closes a code block.
pub open spec fn fence() -> Seq<char> {
    seq!['`', '`', '`']
}

/// A line that begins with a fence and goes on is cut down to the fence.
pub open spec fn bare_fence(line: Seq<char>) -> Seq<char> {
    if line.len() > 3 && line.take(3) == fence() {
        fence()
    } else {
        line
    }
}

/// Every line with its fence bare, lines ending in a single line feed.
pub open spec fn fences_stripped(s: Seq<char>) -> Seq<char>
    decreases s.len(),
{
    match text::first_occurrence(s, seq!['\n']) {
        Some(k) => bare_fence(without_cr(s.take(k))).push('\n') + fences_stripped(s.skip(k + 1)),
        None => bare_fence(s),
    }
}

/// How Slack wants the three characters that it reads as control characters.
pub open spec fn entity(c: char) -> Seq<char> {
    if c == '&' {
        seq!['&', 'a', 'm', 'p', ';']
    } else if c == '<' {
        seq!['&', 'l', 't', ';']
    } else if c == '>' {
        seq!['&', 'g', 't', ';']
    } else {
        seq![c]
    }
}

/// `s` with `&`, `<` and `>` written as entities.
pub open spec fn escaped(s: Seq<char>) -> Seq<char>
    decreases s.len(),
{
    if s.len() == 0 {
        s
    } else {
        entity(s[0]) + escaped(s.skip(1))
    }
}

/// `[label](url)` becomes `<url|label>`; a `[` that opens no link stays.
pub open spec fn links_converted(s: Seq<char>) -> Seq<char>
    decreases s.len(),
{
    match text::first_occurrence(s, seq!['[']) {
        None => s,
        Some(open) => {
            let after = s.skip(open + 1);
            match link_in(after) {
                Some((label, url)) => s.take(open) + link(label, url) + links_converted(
                    after.skip((label.len() + url.len() + 3) as int),
                ),
                None => s.take(open).push('[') + links_converted(after),
            }
        },
    }
}

/// The label and the address of the link whose `[` stands just before `after`.
pub open spec fn link_in(after: Seq<char>) -> Option<(Seq<char>, Seq<char>)> {
    match text::first_occurrence(after, seq![']', '(']) {
        None => None,
        Some(label_end) => {
            let rest = after.skip(label_end + 2);
            match text::first_occurrence(rest, seq![')']) {
                None => None,
                Some(url_end) => Some((after.take(label_end), rest.take(url_end))),
            }
        },
    }
}

/// A link as Slack writes it.
pub open spec fn link(label: Seq<char>, url: Seq<char>) -> Seq<char> {
    seq!['<'] + url + seq!['|'] + label + seq!['>']
}

/// `s` with each `~~`, from the left, made a single `~`.
pub open spec fn tildes_halved(s: Seq<char>) -> Seq<char>
    decreases s.len(),
{
    if s.len() == 0 {
        s
    } else if s.len() >= 2 && s[0] == '~' && s[1] == '~' {
        seq!['~'] + tildes_halved(s.skip(2))
    } else {
        seq![s[0]] + tildes_halved(s.skip(1))
    }
}

/// Where the text after an opening `**` has the closing one.
pub open spec fn bold_end(s: Seq<char>) -> Option<int> {
    if s.len() >= 2 && s[0] == '*' && s[1] == '*' {
        text::first_occurrence(s.skip(2), seq!['*', '*'])
    } else {
        None
    }
}

/// `**text**` becomes the text between the two bold marks. Every other
/// character is written out as its UTF-8 bytes.
pub open spec fn bold_marked(s: Seq<char>) -> Seq<char>
    decreases s.len(),
{
    if s.len() == 0 {
        s
    } else {
        match bold_end(s) {
            Some(n) => seq![BOLD_OPEN] + s.skip(2).take(n) + seq![BOLD_CLOSE] + bold_marked(
                s.skip(n + 4),
            ),
            None => text::bytes_as_chars(s[0]) + bold_marked(s.skip(1)),
        }
    }
}

/// Where the text after an opening `*` has the closing one, if it is not empty.
pub open spec fn italic_end(s: Seq<char>) -> Option<int> {
    if s.len() >= 1 && s[0] == '*' {
        match text::first_occurrence(s.skip(1), seq!['*']) {
            Some(n) => if n > 0 {
                Some(n)
            } else {
                None
            },
            None => None,
        }
    } else {
        None
    }
}

/// `*text*` becomes `_text_`. Every other character is written out as its
/// UTF-8 bytes.
pub open spec fn italic_marked(s: Seq<char>) -> Seq<char>
    decreases s.len(),
{
    if s.len() == 0 {
        s
    } else {
        match italic_end(s) {
            Some(n) => seq!['_'] + s.skip(1).take(n) + seq!['_'] + italic_marked(
                s.skip(n + 2),
            ),
            None => text::bytes_as_chars(s[0]) + italic_marked(s.skip(1)),
        }
    }
}

/// Each bold mark as the `*` that it stands for.
pub open spec fn marks_resolved(s: Seq<char>) -> Seq<char> {
    s.map_values(|c: char| if c == BOLD_OPEN || c == BOLD_CLOSE { '*' } else { c })
}

/// What a Markdown text is in Slack's `mrkdwn`.
pub open spec fn mrkdwn(md: Seq<char>) -> Seq<char> {
    marks_resolved(
        italic_marked(
            bold_marked(tildes_halved(links_converted(escaped(fences_stripped(md))))),
        ),
    )
}

// ---------------------------------------------------------------------------
// The steps
// ---------------------------------------------------------------------------

fn strip_fence_languages(input: &Vec<char>) -> (out: Vec<char>)
    ensures
        out@ == fences_stripped(input@),
{
    let newline: Vec<char> = vec!['\n'];
    let n: usize = input.len();
    let mut out: Vec<char> = Vec::new();
    let mut i: usize = 0;
    proof {
        assert(input@.skip(0) == input@);
    }
    loop
        invariant
            n == input@.len(),
            i <= n,
            newline@ == seq!['\n'],
            fences_stripped(input@) == out@ + fences_stripped(input@.skip(i as int)),
        decreases n - i,
    {
        let ghost s = input@.skip(i as int);
        match text::find_from(input, i, &newline) {
            Some(k) => {
                let end = if k > i && input[k - 1] == '\r' {
                    k - 1
                } else {
                    k
                };
                proof {
                    assert(s.take(k - i) == input@.subrange(i as int, k as int));
                    assert(without_cr(s.take(k - i)) =~= input@.subrange(i as int, end as int));
                    assert(s.skip(k - i + 1) == input@.skip(k + 1));
                }
                let ghost before = out@;
                push_line(&mut out, input, i, end);
                out.push('\n');
                proof {
                    assert(out@ =~= before + bare_fence(without_cr(s.take(k - i))).push('\n'));
                    assert(fences_stripped(input@) =~= out@ + fences_stripped(
                        input@.skip(k + 1),
                    ));
                }
                i = k + 1;
            },
            None => {
                proof {
                    assert(s == input@.subrange(i as int, n as int));
                }
                push_line(&mut out, input, i, n);
                return out;
            },
        }
    }
}

/// Puts a line behind `out`, cut down to the fence where it begins with one.
fn push_line(out: &mut Vec<char>, input: &Vec<char>, from: usize, to: usize)
    requires
        from <= to <= input@.len(),
    ensures
        final(out)@ == old(out)@ + bare_fence(input@.subrange(from as int, to as int)),
{
    let ghost line = input@.subrange(from as int, to as int);
    if to - from > 3 && input[from] == '`' && input[from + 1] == '`' && input[from + 2] == '`' {
        proof {
            assert(line.take(3) =~= fence());
        }
        out.push('`');
        out.push('`');
        out.push('`');
        proof {
            assert(out@ =~= old(out)@ + fence());
        }
    } else {
        proof {
            if line.len() > 3 && line.take(3) == fence() {
                assert(line.take(3)[0] == '`' && line.take(3)[1] == '`' && line.take(3)[2] == '`');
            }
        }
        text::push_range(out, input, from, to);
    }
}

fn escape_entities(input: &Vec<char>) -> (out: Vec<char>)
    ensures
        out@ == escaped(input@),
{
    let mut out: Vec<char> = Vec::new();
    let mut i: usize = 0;
    proof {
        assert(input@.skip(0) == input@);
    }
    while i < input.len()
        invariant
            i <= input@.len(),
            escaped(input@) == out@ + escaped(input@.skip(i as int)),
        decreases input@.len() - i,
    {
        let c = input[i];
        let ghost before = out@;
        if c == '&' {
            out.push('&');
            out.push('a');
            out.push('m');
            out.push('p');
            out.push(';');
        } else if c == '<' {
            out.push('&');
            out.push('l');
            out.push('t');
            out.push(';');
        } else if c == '>' {
            out.push('&');
            out.push('g');
            out.push('t');
            out.push(';');
        } else {
            out.push(c);
        }
        proof {
            assert(out@ =~= before + entity(c));
            assert(input@.skip(i as int).skip(1) == input@.skip(i + 1));
            assert(escaped(input@) =~= out@ + escaped(input@.skip(i + 1)));
        }
        i = i + 1;
    }
    out
}

/// The ends of the label and of the address of the link whose `[` stands just
/// before `start`.
fn find_link(input: &Vec<char>, start: usize) -> (r: Option<(usize, usize)>)
    requires
        start <= input@.len(),
    ensures
        match r {
            Some((label_end, url_end)) => {
                &&& start <= label_end
                &&& label_end + 2 <= url_end < input@.len()
                &&& link_in(input@.skip(start as int)) == Some(
                    (
                        input@.subrange(start as int, label_end as int),
                        input@.subrange(label_end + 2, url_end as int),
                    ),
                )
            },
            None => link_in(input@.skip(start as int)) is None,
        },
{
    let middle: Vec<char> = vec![']', '('];
    let closing: Vec<char> = vec![')'];
    let ghost after = input@.skip(start as int);
    match text::find_from(input, start, &middle) {
        Some(label_end) => {
            proof {
                assert(middle@ =~= seq![']', '(']);
            }
            assert(label_end + 2 <= input.len());
            let url_start = label_end + 2;
            proof {
                assert(closing@ =~= seq![')']);
                assert(after.skip(label_end - start + 2) == input@.skip(url_start as int));
                assert(after.take(label_end - start) == input@.subrange(
                    start as int,
                    label_end as int,
                ));
            }
            match text::find_from(input, url_start, &closing) {
                Some(url_end) => {
                    proof {
                        assert(input@.skip(url_start as int).take(url_end - url_start)
                            == input@.subrange(url_start as int, url_end as int));
                    }
                    Some((label_end, url_end))
                },
                None => None,
            }
        },
        None => {
            proof {
                assert(middle@ =~= seq![']', '(']);
            }
            None
        },
    }
}

proof fn lemma_no_bracket(s: Seq<char>)
    requires
        text::first_occurrence(s, seq!['[']) is None,
    ensures
        links_converted(s) == s,
{
}

proof fn lemma_link_found(
    before: Seq<char>,
    s: Seq<char>,
    open: int,
    label: Seq<char>,
    url: Seq<char>,
    rest: Seq<char>,
)
    requires
        text::first_occurrence(s, seq!['[']) == Some(open),
        link_in(s.skip(open + 1)) == Some((label, url)),
        rest == s.skip(open + 1).skip((label.len() + url.len() + 3) as int),
    ensures
        before + links_converted(s) == before + (s.take(open) + link(label, url))
            + links_converted(rest),
{
    lemma_add_assoc(before, s.take(open) + link(label, url), links_converted(rest));
}

proof fn lemma_no_link(before: Seq<char>, s: Seq<char>, open: int)
    requires
        text::first_occurrence(s, seq!['[']) == Some(open),
        link_in(s.skip(open + 1)) is None,
    ensures
        before + links_converted(s) == before + s.take(open).push('[') + links_converted(
            s.skip(open + 1),
        ),
{
    lemma_add_assoc(before, s.take(open).push('['), links_converted(s.skip(open + 1)));
}

fn convert_links(input: &Vec<char>) -> (out: Vec<char>)
    ensures
        out@ == links_converted(input@),
{
    let bracket: Vec<char> = vec!['['];
    let n: usize = input.len();
    let mut out: Vec<char> = Vec::new();
    let mut i: usize = 0;
    let ghost whole = links_converted(input@);
    proof {
        assert(input@.skip(0) == input@);
        assert(bracket@ =~= seq!['[']);
        assert(out@ + whole =~= whole);
    }
    loop
        invariant
            n == input@.len(),
            i <= n,
            bracket@ == seq!['['],
            whole == links_converted(input@),
            whole == out@ + links_converted(input@.skip(i as int)),
        decreases n - i,
    {
        let ghost s = input@.skip(i as int);
        let ghost before = out@;
        let open = match text::find_from(input, i, &bracket) {
            Some(open) => open,
            None => {
                text::push_range(&mut out, input, i, n);
                proof {
                    lemma_no_bracket(s);
                    assert(s == input@.subrange(i as int, n as int));
                }
                return out;
            },
        };
        text::push_range(&mut out, input, i, open);
        let label_start = open + 1;
        let ghost after = input@.skip(label_start as int);
        proof {
            assert(s.take(open - i) == input@.subrange(i as int, open as int));
            assert(s.skip(open - i + 1) == after);
        }
        match find_link(input, label_start) {
            Some((label_end, url_end)) => {
                let ghost label = input@.subrange(label_start as int, label_end as int);
                let ghost url = input@.subrange(label_end + 2, url_end as int);
                let ghost rest = input@.skip(url_end + 1);
                proof {
                    assert(after.skip((label.len() + url.len() + 3) as int) == rest);
                    lemma_link_found(before, s, open - i, label, url, rest);
                }
                out.push('<');
                text::push_range(&mut out, input, label_end + 2, url_end);
                out.push('|');
                text::push_range(&mut out, input, label_start, label_end);
                out.push('>');
                proof {
                    assert(out@ =~= before + (s.take(open - i) + link(label, url)));
                }
                i = url_end + 1;
            },
            None => {
                out.push('[');
                proof {
                    lemma_no_link(before, s, open - i);
                    assert(out@ =~= before + s.take(open - i).push('['));
                }
                i = label_start;
            },
        }
    }
}

proof fn lemma_add_assoc(a: Seq<char>, b: Seq<char>, c: Seq<char>)
    ensures
        a + (b + c) == (a + b) + c,
{
    assert(a + (b + c) =~= (a + b) + c);
}

fn halve_tildes(input: &Vec<char>) -> (out: Vec<char>)
    ensures
        out@ == tildes_halved(input@),
{
    let n: usize = input.len();
    let mut out: Vec<char> = Vec::new();
    let mut i: usize = 0;
    proof {
        assert(input@.skip(0) == input@);
    }
    while i < n
        invariant
            n == input@.len(),
            i <= n,
            tildes_halved(input@) == out@ + tildes_halved(input@.skip(i as int)),
        decreases n - i,
    {
        let ghost s = input@.skip(i as int);
        let c = input[i];
        let ghost before = out@;
        out.push(c);
        let step: usize = if c == '~' && n - i >= 2 && input[i + 1] == '~' {
            2
        } else {
            1
        };
        proof {
            assert(out@ =~= before + seq![c]);
            assert(s.skip(step as int) == input@.skip(i + step));
            assert(tildes_halved(input@) =~= out@ + tildes_halved(input@.skip(i + step)));
        }
        i = i + step;
    }
    out
}

fn convert_bold_markers(input: &Vec<char>) -> (out: Vec<char>)
    ensures
        out@ == bold_marked(input@),
{
    let stars: Vec<char> = vec!['*', '*'];
    let n: usize = input.len();
    let mut out: Vec<char> = Vec::new();
    let mut i: usize = 0;
    proof {
        assert(input@.skip(0) == input@);
    }
    while i < n
        invariant
            n == input@.len(),
            i <= n,
            stars@ == seq!['*', '*'],
            bold_marked(input@) == out@ + bold_marked(input@.skip(i as int)),
        decreases n - i,
    {
        let ghost s = input@.skip(i as int);
        let ghost before = out@;
        let mut found: Option<usize> = None;
        if n - i >= 2 && input[i] == '*' && input[i + 1] == '*' {
            proof {
                assert(s.skip(2) == input@.skip(i + 2));
            }
            found = text::find_from(input, i + 2, &stars);
        }
        match found {
            Some(end) => {
                let ghost inner = input@.subrange(i + 2, end as int);
                out.push(BOLD_OPEN);
                text::push_range(&mut out, input, i + 2, end);
                out.push(BOLD_CLOSE);
                proof {
                    assert(s.skip(2).take(end - i - 2) == inner);
                    assert(s.skip(end - i + 2) == input@.skip(end + 2));
                    assert(out@ =~= before + (seq![BOLD_OPEN] + inner + seq![BOLD_CLOSE]));
                    assert(bold_marked(input@) =~= out@ + bold_marked(input@.skip(end + 2)));
                }
                i = end + 2;
            },
            None => {
                text::push_bytes_as_chars(&mut out, input[i]);
                proof {
                    assert(s.skip(1) == input@.skip(i + 1));
                    assert(bold_marked(input@) =~= out@ + bold_marked(input@.skip(i + 1)));
                }
                i = i + 1;
            },
        }
    }
    out
}

fn convert_single_asterisk_italic(input: &Vec<char>) -> (out: Vec<char>)
    ensures
        out@ == italic_marked(input@),
{
    let star: Vec<char> = vec!['*'];
    let n: usize = input.len();
    let mut out: Vec<char> = Vec::new();
    let mut i: usize = 0;
    proof {
        assert(input@.skip(0) == input@);
    }
    while i < n
        invariant
            n == input@.len(),
            i <= n,
            star@ == seq!['*'],
            italic_marked(input@) == out@ + italic_marked(input@.skip(i as int)),
        decreases n - i,
    {
        let ghost s = input@.skip(i as int);
        let ghost before = out@;
        let mut found: Option<usize> = None;
        if input[i] == '*' {
            proof {
                assert(s.skip(1) == input@.skip(i + 1));
            }
            if let Some(end) = text::find_from(input, i + 1, &star) {
                // Only convert when there is text between the delimiters.
                if end > i + 1 {
                    found = Some(end);
                }
            }
        }
        match found {
            Some(end) => {
                let ghost inner = input@.subrange(i + 1, end as int);
                out.push('_');
                text::push_range(&mut out, input, i + 1, end);
                out.push('_');
                proof {
                    assert(s.skip(1).take(end - i - 1) == inner);
                    assert(s.skip(end - i + 1) == input@.skip(end + 1));
                    assert(out@ =~= before + (seq!['_'] + inner + seq!['_']));
                    assert(italic_marked(input@) =~= out@ + italic_marked(input@.skip(end + 1)));
                }
                i = end + 1;
            },
            None => {
                text::push_bytes_as_chars(&mut out, input[i]);
                proof {
                    assert(s.skip(1) == input@.skip(i + 1));
                    assert(italic_marked(input@) =~= out@ + italic_marked(input@.skip(i + 1)));
                }
                i = i + 1;
            },
        }
    }
    out
}

/// The `mrkdwn` form of a Markdown text.
#[must_use]
pub fn markdown_to_mrkdwn(md: &str) -> (r: String)
    ensures
        r@ == mrkdwn(md@),
{
    let stripped = strip_fence_languages(&text::chars_of(md));
    let plain = escape_entities(&stripped);
    let linked = convert_links(&plain);
    let struck = halve_tildes(&linked);
    let bold = convert_bold_markers(&struck);
    let marked = convert_single_asterisk_italic(&bold);
    let mut out: Vec<char> = Vec::new();
    let n: usize = marked.len();
    let mut i: usize = 0;
    while i < n
        invariant
            n == marked@.len(),
            i <= n,
            out@ == marks_resolved(marked@).take(i as int),
        decreases n - i,
    {
        let c = marked[i];
        if c == BOLD_OPEN || c == BOLD_CLOSE {
            out.push('*');
        } else {
            out.push(c);
        }
        i = i + 1;
    }
    proof {
        assert(out@.subrange(0, n as int) =~= marks_resolved(marked@));
    }
    text::string_of(&out, 0, n)
}

// ---------------------------------------------------------------------------
// Laws
// ---------------------------------------------------------------------------

/// How often `c` stands in `s`.
pub open spec fn occurrences(s: Seq<char>, c: char) -> nat
    decreases s.len(),
{
    if s.len() == 0 {
        0
    } else {
        (if s[0] == c {
            1nat
        } else {
            0nat
        }) + occurrences(s.skip(1), c)
    }
}

/// How many links a text holds.
pub open spec fn link_count(s: Seq<char>) -> nat
    decreases s.len(),
{
    match text::first_occurrence(s, seq!['[']) {
        None => 0,
        Some(open) => {
            let after = s.skip(open + 1);
            match link_in(after) {
                Some((label, url)) => 1 + link_count(
                    after.skip((label.len() + url.len() + 3) as int),
                ),
                None => link_count(after),
            }
        },
    }
}

proof fn lemma_occurrences_add(a: Seq<char>, b: Seq<char>, c: char)
    ensures
        occurrences(a + b, c) == occurrences(a, c) + occurrences(b, c),
    decreases a.len(),
{
    if a.len() == 0 {
        assert(a + b == b);
    } else {
        assert((a + b).skip(1) == a.skip(1) + b);
        lemma_occurrences_add(a.skip(1), b, c);
    }
}

proof fn lemma_occurrences_split(s: Seq<char>, k: int, c: char)
    requires
        0 <= k <= s.len(),
    ensures
        occurrences(s, c) == occurrences(s.take(k), c) + occurrences(s.skip(k), c),
{
    assert(s == s.take(k) + s.skip(k));
    lemma_occurrences_add(s.take(k), s.skip(k), c);
}

proof fn lemma_occurrences_one(x: char, c: char)
    ensures
        occurrences(seq![x], c) == if x == c {
            1nat
        } else {
            0nat
        },
{
    assert(seq![x].skip(1) == Seq::<char>::empty());
    assert(occurrences(seq![x].skip(1), c) == 0);
}

proof fn lemma_occurrences_none(s: Seq<char>, c: char)
    requires
        forall|i: int| 0 <= i < s.len() ==> s[i] != c,
    ensures
        occurrences(s, c) == 0,
    decreases s.len(),
{
    if s.len() > 0 {
        assert forall|i: int| 0 <= i < s.skip(1).len() implies s.skip(1)[i] != c by {
            assert(s.skip(1)[i] == s[i + 1]);
        }
        lemma_occurrences_none(s.skip(1), c);
    }
}

proof fn lemma_escaped_none(s: Seq<char>, c: char)
    requires
        c == '<' || c == '>',
    ensures
        occurrences(escaped(s), c) == 0,
    decreases s.len(),
{
    if s.len() > 0 {
        lemma_escaped_none(s.skip(1), c);
        lemma_occurrences_add(entity(s[0]), escaped(s.skip(1)), c);
        lemma_occurrences_none(entity(s[0]), c);
    }
}

/// How many more of `c` a link holds than its source.
spec fn added_by_link(c: char) -> nat {
    if c == '<' || c == '>' {
        1
    } else {
        0
    }
}

proof fn lemma_links_count(s: Seq<char>, c: char)
    requires
        c == '<' || c == '>' || c == '\n',
    ensures
        occurrences(links_converted(s), c) == occurrences(s, c) + (if c == '\n' {
            0
        } else {
            link_count(s)
        }),
    decreases s.len(),
{
    match text::first_occurrence(s, seq!['[']) {
        None => {},
        Some(open) => {
            let pre = s.take(open);
            let after = s.skip(open + 1);
            lemma_occurrences_split(s, open, c);
            lemma_occurrences_split(s.skip(open), 1, c);
            assert(text::occurs_at(s, seq!['['], open));
            assert(s[open] == s.subrange(open, open + 1)[0]);
            assert(s.skip(open).take(1) =~= seq!['[']);
            lemma_occurrences_one('[', c);
            assert(s.skip(open).skip(1) == after);
            match link_in(after) {
                Some((label, url)) => {
                    lemma_link_text(after, label, url, c);
                    let rest = after.skip((label.len() + url.len() + 3) as int);
                    lemma_links_count(rest, c);
                    lemma_occurrences_add(pre + link(label, url), links_converted(rest), c);
                    lemma_occurrences_add(pre, link(label, url), c);
                },
                None => {
                    lemma_links_count(after, c);
                    lemma_occurrences_add(pre.push('['), links_converted(after), c);
                    assert(pre.push('[') == pre + seq!['[']);
                    lemma_occurrences_add(pre, seq!['['], c);
                },
            }
        },
    }
}

/// A link holds what its source holds and one `<` and one `>` more.
proof fn lemma_link_text(after: Seq<char>, label: Seq<char>, url: Seq<char>, c: char)
    requires
        c == '<' || c == '>' || c == '\n',
        link_in(after) == Some((label, url)),
    ensures
        occurrences(link(label, url), c) == occurrences(label, c) + occurrences(url, c)
            + added_by_link(c),
        label.len() + url.len() + 3 <= after.len(),
        occurrences(after, c) == occurrences(label, c) + occurrences(url, c) + occurrences(
            after.skip((label.len() + url.len() + 3) as int),
            c,
        ),
{
    let n = label.len() as int;
    let m = url.len() as int;
    let rest = after.skip(n + 2);
    let k = text::first_occurrence(after, seq![']', '('])->0;
    assert(text::occurs_at(after, seq![']', '('], k));
    assert(k == n);
    let j = text::first_occurrence(rest, seq![')'])->0;
    assert(text::occurs_at(rest, seq![')'], j));
    assert(j == m);
    lemma_occurrences_split(after, n, c);
    lemma_occurrences_split(after.skip(n), 2, c);
    assert(after.skip(n).take(2) =~= after.subrange(n, n + 2));
    lemma_occurrences_none(seq![']', '('], c);
    assert(after.skip(n).skip(2) == rest);
    lemma_occurrences_split(rest, m, c);
    lemma_occurrences_split(rest.skip(m), 1, c);
    assert(rest.skip(m).take(1) =~= rest.subrange(m, m + 1));
    lemma_occurrences_none(seq![')'], c);
    assert(rest.skip(m).skip(1) == after.skip(n + m + 3));
    let a = seq!['<'] + url;
    let b = a + seq!['|'];
    let d = b + label;
    lemma_occurrences_add(d, seq!['>'], c);
    lemma_occurrences_add(b, label, c);
    lemma_occurrences_add(a, seq!['|'], c);
    lemma_occurrences_add(seq!['<'], url, c);
    lemma_occurrences_one('<', c);
    lemma_occurrences_one('>', c);
    lemma_occurrences_one('|', c);
}

proof fn lemma_tildes_count(s: Seq<char>, c: char)
    requires
        c != '~',
    ensures
        occurrences(tildes_halved(s), c) == occurrences(s, c),
    decreases s.len(),
{
    if s.len() == 0 {
    } else if s.len() >= 2 && s[0] == '~' && s[1] == '~' {
        lemma_tildes_count(s.skip(2), c);
        lemma_occurrences_add(seq!['~'], tildes_halved(s.skip(2)), c);
        lemma_occurrences_one('~', c);
        assert(s.skip(1).skip(1) == s.skip(2));
        assert(occurrences(s, c) == occurrences(s.skip(1), c));
        assert(occurrences(s.skip(1), c) == occurrences(s.skip(1).skip(1), c));
    } else {
        lemma_tildes_count(s.skip(1), c);
        lemma_occurrences_add(seq![s[0]], tildes_halved(s.skip(1)), c);
        lemma_occurrences_one(s[0], c);
    }
}

proof fn lemma_bytes_count(x: char, c: char)
    requires
        c <= '\u{7f}',
    ensures
        occurrences(text::bytes_as_chars(x), c) == occurrences(seq![x], c),
{
    if x <= '\u{7f}' {
        text::lemma_bytes_as_chars_ascii(x);
    } else {
        text::lemma_bytes_as_chars_wide(x);
        lemma_occurrences_none(text::bytes_as_chars(x), c);
        lemma_occurrences_one(x, c);
    }
}

/// A span that is cut out of `s`, its marks replaced, keeps its characters.
proof fn lemma_span_count(s: Seq<char>, mark: Seq<char>, n: int, a: char, b: char, c: char)
    requires
        0 <= n,
        mark.len() + n + mark.len() <= s.len(),
        s.take(mark.len() as int) == mark,
        s.subrange(mark.len() + n, mark.len() + n + mark.len()) == mark,
        forall|i: int| 0 <= i < mark.len() ==> mark[i] != c,
        a != c,
        b != c,
    ensures
        occurrences(s, c) == occurrences(
            seq![a] + s.skip(mark.len() as int).take(n) + seq![b],
            c,
        ) + occurrences(s.skip(mark.len() + n + mark.len()), c),
{
    let m = mark.len() as int;
    let inner = s.skip(m).take(n);
    lemma_occurrences_none(mark, c);
    lemma_occurrences_split(s, m, c);
    lemma_occurrences_split(s.skip(m), n, c);
    assert(s.skip(m).skip(n) == s.skip(m + n));
    lemma_occurrences_split(s.skip(m + n), m, c);
    assert(s.skip(m + n).take(m) == s.subrange(m + n, m + n + m));
    assert(s.skip(m + n).skip(m) == s.skip(m + n + m));
    lemma_occurrences_add(seq![a] + inner, seq![b], c);
    lemma_occurrences_add(seq![a], inner, c);
    lemma_occurrences_one(a, c);
    lemma_occurrences_one(b, c);
}

proof fn lemma_bold_count(s: Seq<char>, c: char)
    requires
        c <= '\u{7f}',
        c != '*' && c != BOLD_OPEN && c != BOLD_CLOSE,
    ensures
        occurrences(bold_marked(s), c) == occurrences(s, c),
    decreases s.len(),
{
    if s.len() > 0 {
        match bold_end(s) {
            Some(n) => {
                let mark = seq!['*', '*'];
                assert(text::occurs_at(s.skip(2), mark, n));
                assert(s.take(2) =~= mark);
                assert(s.subrange(2 + n, 2 + n + 2) =~= s.skip(2).subrange(n, n + 2));
                lemma_span_count(s, mark, n, BOLD_OPEN, BOLD_CLOSE, c);
                lemma_bold_count(s.skip(n + 4), c);
                lemma_occurrences_add(
                    seq![BOLD_OPEN] + s.skip(2).take(n) + seq![BOLD_CLOSE],
                    bold_marked(s.skip(n + 4)),
                    c,
                );
            },
            None => {
                lemma_bold_count(s.skip(1), c);
                lemma_occurrences_add(text::bytes_as_chars(s[0]), bold_marked(s.skip(1)), c);
                lemma_bytes_count(s[0], c);
                lemma_occurrences_one(s[0], c);
            },
        }
    }
}

proof fn lemma_italic_count(s: Seq<char>, c: char)
    requires
        c <= '\u{7f}',
        c != '*' && c != '_',
    ensures
        occurrences(italic_marked(s), c) == occurrences(s, c),
    decreases s.len(),
{
    if s.len() > 0 {
        match italic_end(s) {
            Some(n) => {
                let mark = seq!['*'];
                assert(text::occurs_at(s.skip(1), mark, n));
                assert(s.take(1) =~= mark);
                assert(s.subrange(1 + n, 1 + n + 1) =~= s.skip(1).subrange(n, n + 1));
                lemma_span_count(s, mark, n, '_', '_', c);
                lemma_italic_count(s.skip(n + 2), c);
                lemma_occurrences_add(
                    seq!['_'] + s.skip(1).take(n) + seq!['_'],
                    italic_marked(s.skip(n + 2)),
                    c,
                );
            },
            None => {
                lemma_italic_count(s.skip(1), c);
                lemma_occurrences_add(text::bytes_as_chars(s[0]), italic_marked(s.skip(1)), c);
                lemma_bytes_count(s[0], c);
                lemma_occurrences_one(s[0], c);
            },
        }
    }
}

proof fn lemma_marks_count(s: Seq<char>, c: char)
    requires
        c != '*' && c != BOLD_OPEN && c != BOLD_CLOSE,
    ensures
        occurrences(marks_resolved(s), c) == occurrences(s, c),
    decreases s.len(),
{
    if s.len() > 0 {
        lemma_marks_count(s.skip(1), c);
        assert(marks_resolved(s).skip(1) =~= marks_resolved(s.skip(1)));
    }
}

/// `<` and `>`, which Slack reads as control characters, stand in the result
/// only where a link was converted: once each for every link.
pub proof fn law_angle_brackets_are_links(md: Seq<char>, c: char)
    requires
        c == '<' || c == '>',
    ensures
        occurrences(mrkdwn(md), c) == link_count(escaped(fences_stripped(md))),
{
    let plain = escaped(fences_stripped(md));
    let linked = links_converted(plain);
    let struck = tildes_halved(linked);
    let bold = bold_marked(struck);
    let marked = italic_marked(bold);
    lemma_escaped_none(fences_stripped(md), c);
    lemma_links_count(plain, c);
    lemma_tildes_count(linked, c);
    lemma_bold_count(struck, c);
    lemma_italic_count(bold, c);
    lemma_marks_count(marked, c);
}

/// What stands before the first `c` is without it.
proof fn lemma_first_char(s: Seq<char>, c: char)
    ensures
        match text::first_occurrence(s, seq![c]) {
            Some(k) => 0 <= k < s.len() && s[k] == c && lacks(s.take(k), c),
            None => lacks(s, c),
        },
{
    assert forall|i: int| 0 <= i < s.len() && s[i] == c implies text::occurs_at(
        s,
        seq![c],
        i,
    ) by {
        assert(s.subrange(i, i + 1) =~= seq![c]);
    }
    match text::first_occurrence(s, seq![c]) {
        Some(k) => {
            text::lemma_first_is_some(s, seq![c]);
            assert(s[k] == s.subrange(k, k + 1)[0]);
        },
        None => {
            if exists|i: int| 0 <= i < s.len() && s[i] == c {
                let i = choose|i: int| 0 <= i < s.len() && s[i] == c;
                assert(text::occurs_at(s, seq![c], i));
                text::lemma_some_occurrence(s, seq![c]);
            }
        },
    }
}

proof fn lemma_fences_count(s: Seq<char>)
    ensures
        occurrences(fences_stripped(s), '\n') == occurrences(s, '\n'),
    decreases s.len(),
{
    let c = '\n';
    lemma_first_char(s, c);
    match text::first_occurrence(s, seq![c]) {
        Some(k) => {
            let line = bare_fence(without_cr(s.take(k)));
            let rest = s.skip(k + 1);
            lemma_fences_count(rest);
            assert(line.push(c) =~= line + seq![c]);
            lemma_occurrences_add(line + seq![c], fences_stripped(rest), c);
            lemma_occurrences_add(line, seq![c], c);
            lemma_occurrences_none(line, c);
            lemma_occurrences_one(c, c);
            lemma_occurrences_split(s, k, c);
            lemma_occurrences_none(s.take(k), c);
            assert(s.skip(k)[0] == c);
            assert(s.skip(k).skip(1) =~= rest);
        },
        None => {
            lemma_occurrences_none(s, c);
            lemma_occurrences_none(bare_fence(s), c);
        },
    }
}

proof fn lemma_escaped_count(s: Seq<char>)
    ensures
        occurrences(escaped(s), '\n') == occurrences(s, '\n'),
    decreases s.len(),
{
    let c = '\n';
    if s.len() > 0 {
        lemma_escaped_count(s.skip(1));
        lemma_occurrences_add(entity(s[0]), escaped(s.skip(1)), c);
        if s[0] == '&' || s[0] == '<' || s[0] == '>' {
            lemma_occurrences_none(entity(s[0]), c);
        } else {
            lemma_occurrences_one(s[0], c);
        }
    }
}

/// The result has as many line feeds as the text.
pub proof fn law_line_feeds_survive(md: Seq<char>)
    ensures
        occurrences(mrkdwn(md), '\n') == occurrences(md, '\n'),
{
    let c = '\n';
    let plain = escaped(fences_stripped(md));
    let linked = links_converted(plain);
    let struck = tildes_halved(linked);
    let bold = bold_marked(struck);
    lemma_fences_count(md);
    lemma_escaped_count(fences_stripped(md));
    lemma_links_count(plain, c);
    lemma_tildes_count(linked, c);
    lemma_bold_count(struck, c);
    lemma_italic_count(bold, c);
    lemma_marks_count(italic_marked(bold), c);
}

/// The marks that stand for bold while a text is converted never reach the
/// result.
pub proof fn law_no_marks_left(md: Seq<char>)
    ensures
        forall|i: int|
            0 <= i < mrkdwn(md).len() ==> mrkdwn(md)[i] != BOLD_OPEN && mrkdwn(md)[i]
                != BOLD_CLOSE,
{
}

/// Whether `c` stands nowhere in `s`.
pub open spec fn lacks(s: Seq<char>, c: char) -> bool {
    forall|i: int| 0 <= i < s.len() ==> s[i] != c
}

/// Whether no two tildes stand side by side in `s`.
pub open spec fn single_tildes(s: Seq<char>) -> bool {
    forall|i: int| 0 <= i < s.len() - 1 && s[i] == '~' ==> #[trigger] s[i + 1] != '~'
}

/// Whether `s` is of ASCII characters to which neither Markdown nor Slack gives
/// a meaning, but for code.
pub open spec fn is_plain(s: Seq<char>) -> bool {
    &&& vstd::utf8::is_ascii_chars(s)
    &&& lacks(s, '&') && lacks(s, '<') && lacks(s, '>')
    &&& lacks(s, '[') && lacks(s, '*') && single_tildes(s)
    &&& lacks(s, BOLD_OPEN) && lacks(s, BOLD_CLOSE)
}

proof fn lemma_rest(s: Seq<char>)
    requires
        s.len() > 0,
    ensures
        seq![s[0]] + s.skip(1) == s,
        forall|c: char| lacks(s, c) ==> #[trigger] lacks(s.skip(1), c),
        vstd::utf8::is_ascii_chars(s) ==> vstd::utf8::is_ascii_chars(s.skip(1)),
{
    assert(seq![s[0]] + s.skip(1) =~= s);
    assert forall|i: int| 0 <= i < s.skip(1).len() implies s.skip(1)[i] == s[i + 1] by {}
}

proof fn lemma_escaped_same(s: Seq<char>)
    requires
        lacks(s, '&') && lacks(s, '<') && lacks(s, '>'),
    ensures
        escaped(s) == s,
    decreases s.len(),
{
    if s.len() > 0 {
        lemma_rest(s);
        assert(lacks(s.skip(1), '&') && lacks(s.skip(1), '<') && lacks(s.skip(1), '>'));
        lemma_escaped_same(s.skip(1));
    }
}

proof fn lemma_links_same(s: Seq<char>)
    requires
        lacks(s, '['),
    ensures
        links_converted(s) == s,
{
    if text::first_occurrence(s, seq!['[']) is Some {
        let k = text::first_occurrence(s, seq!['['])->0;
        assert(text::occurs_at(s, seq!['['], k));
        assert(s[k] == s.subrange(k, k + 1)[0]);
    }
}

proof fn lemma_stars_same(s: Seq<char>)
    requires
        vstd::utf8::is_ascii_chars(s),
        lacks(s, '*'),
    ensures
        bold_marked(s) == s,
        italic_marked(s) == s,
    decreases s.len(),
{
    if s.len() > 0 {
        lemma_rest(s);
        assert(lacks(s.skip(1), '*'));
        lemma_stars_same(s.skip(1));
        text::lemma_bytes_as_chars_ascii(s[0]);
    }
}

proof fn lemma_marks_same(s: Seq<char>)
    requires
        lacks(s, BOLD_OPEN),
        lacks(s, BOLD_CLOSE),
    ensures
        marks_resolved(s) == s,
{
    assert(marks_resolved(s) =~= s);
}

/// Whether `s` is of ASCII characters and holds nothing that is markup, but for
/// code: no character that Slack reads as a control character, no `](`, without
/// which there is no link, no `~~`, and at most one `*`.
pub open spec fn is_unmarked(s: Seq<char>) -> bool {
    &&& vstd::utf8::is_ascii_chars(s)
    &&& lacks(s, '&') && lacks(s, '<') && lacks(s, '>')
    &&& !text::contains_text(s, seq![']', '('])
    &&& single_tildes(s)
    &&& forall|i: int, j: int| 0 <= i < j < s.len() && s[i] == '*' ==> s[j] != '*'
    &&& lacks(s, BOLD_OPEN) && lacks(s, BOLD_CLOSE)
}

proof fn lemma_no_links(s: Seq<char>)
    requires
        !text::contains_text(s, seq![']', '(']),
    ensures
        links_converted(s) == s,
    decreases s.len(),
{
    if let Some(open) = text::first_occurrence(s, seq!['[']) {
        text::lemma_first_is_some(s, seq!['[']);
        let after = s.skip(open + 1);
        let middle = seq![']', '('];
        assert forall|i: int| !text::occurs_at(after, middle, i) by {
            if text::occurs_at(after, middle, i) {
                let k = open + 1 + i;
                assert(s.subrange(k, k + 2) =~= after.subrange(i, i + 2));
                assert(text::occurs_at(s, middle, k));
            }
        }
        lemma_no_links(after);
        assert(s[open] == s.subrange(open, open + 1)[0]);
        assert(s.take(open).push('[') + after =~= s);
    }
}

proof fn lemma_single_tildes_rest(s: Seq<char>)
    requires
        single_tildes(s),
        s.len() > 0,
    ensures
        single_tildes(s.skip(1)),
        s.len() > 1 && s[0] == '~' ==> s[1] != '~',
{
    if s.len() > 1 && s[0] == '~' {
        assert(s[0int + 1] != '~');
    }
    let rest = s.skip(1);
    assert forall|i: int| 0 <= i < rest.len() - 1 && rest[i] == '~' implies #[trigger] rest[i + 1]
        != '~' by {
        assert(s[(i + 1) + 1] != '~');
    }
}

proof fn lemma_tildes_same(s: Seq<char>)
    requires
        single_tildes(s),
    ensures
        tildes_halved(s) == s,
    decreases s.len(),
{
    if s.len() > 0 {
        lemma_rest(s);
        lemma_single_tildes_rest(s);
        lemma_tildes_same(s.skip(1));
    }
}

proof fn lemma_one_star_same(s: Seq<char>)
    requires
        vstd::utf8::is_ascii_chars(s),
        forall|i: int, j: int| 0 <= i < j < s.len() && s[i] == '*' ==> s[j] != '*',
    ensures
        bold_marked(s) == s,
        italic_marked(s) == s,
    decreases s.len(),
{
    if s.len() > 0 {
        lemma_rest(s);
        let rest = s.skip(1);
        assert forall|i: int, j: int| 0 <= i < j < rest.len() && rest[i] == '*' implies rest[j]
            != '*' by {
            assert(s[i + 1] == rest[i] && s[j + 1] == rest[j]);
        }
        lemma_one_star_same(rest);
        text::lemma_bytes_as_chars_ascii(s[0]);
        if s[0] == '*' {
            if text::first_occurrence(rest, seq!['*']) is Some {
                text::lemma_first_is_some(rest, seq!['*']);
                let k = text::first_occurrence(rest, seq!['*'])->0;
                assert(rest[k] == rest.subrange(k, k + 1)[0]);
                assert(rest[k] == s[k + 1]);
            }
        }
    }
}

/// A text without markup comes out as it went in, where its code blocks are
/// bare and its lines end in line feeds.
pub proof fn law_plain_text_unchanged(md: Seq<char>)
    requires
        is_unmarked(md),
        fences_stripped(md) == md,
    ensures
        mrkdwn(md) == md,
{
    lemma_escaped_same(md);
    lemma_no_links(md);
    lemma_tildes_same(md);
    lemma_one_star_same(md);
    lemma_marks_same(md);
}

proof fn lemma_first_after(inner: Seq<char>, mark: Seq<char>, rest: Seq<char>)
    requires
        mark.len() > 0,
        lacks(inner, mark[0]),
    ensures
        text::first_occurrence(inner + mark + rest, mark) == Some(inner.len() as int),
{
    let s = inner + mark + rest;
    let n = inner.len() as int;
    let m = mark.len() as int;
    assert(s.subrange(n, n + m) =~= mark);
    assert forall|j: int| 0 <= j < n implies !text::occurs_at(s, mark, j) by {
        if text::occurs_at(s, mark, j) {
            assert(s[j] == s.subrange(j, j + m)[0]);
            assert(s[j] == inner[j]);
        }
    }
    text::lemma_first_is(s, mark, n);
}

#[verifier::spinoff_prover]
#[verifier::rlimit(30)]
proof fn lemma_bold_span(inner: Seq<char>)
    requires
        lacks(inner, '*'),
    ensures
        bold_marked(seq!['*', '*'] + inner + seq!['*', '*']) == seq![BOLD_OPEN] + inner
            + seq![BOLD_CLOSE],
{
    let stars = seq!['*', '*'];
    let md = stars + inner + stars;
    let n = inner.len() as int;
    lemma_first_after(inner, stars, Seq::empty());
    assert(md.skip(2) =~= inner + stars + Seq::<char>::empty());
    assert(bold_end(md) == Some(n));
    assert(md.skip(2).take(n) =~= inner);
    let end = md.skip(n + 4);
    assert(end =~= Seq::<char>::empty());
    assert(bold_marked(end) =~= Seq::<char>::empty());
    assert(seq![BOLD_OPEN] + inner + seq![BOLD_CLOSE] + Seq::<char>::empty() =~= seq![BOLD_OPEN]
        + inner + seq![BOLD_CLOSE]);
}

proof fn lemma_italic_span(inner: Seq<char>)
    requires
        lacks(inner, '*'),
        inner.len() > 0,
    ensures
        italic_marked(seq!['*'] + inner + seq!['*']) == seq!['_'] + inner + seq!['_'],
{
    let star = seq!['*'];
    let md = star + inner + star;
    let n = inner.len() as int;
    lemma_first_after(inner, star, Seq::empty());
    assert(md.skip(1) =~= inner + star + Seq::<char>::empty());
    assert(italic_end(md) == Some(n));
    assert(md.skip(1).take(n) =~= inner);
    let end = md.skip(n + 2);
    assert(end =~= Seq::<char>::empty());
    assert(italic_marked(end) =~= Seq::<char>::empty());
    assert(seq!['_'] + inner + seq!['_'] + Seq::<char>::empty() =~= seq!['_'] + inner + seq!['_']);
}

proof fn lemma_first_between(
    before: Seq<char>,
    s: Seq<char>,
    after: Seq<char>,
    pat: Seq<char>,
)
    requires
        pat.len() > 0,
        lacks(before, pat[0]),
        lacks(after, pat.last()),
    ensures
        text::first_occurrence(before + s + after, pat) == match text::first_occurrence(s, pat) {
            Some(k) => Some(before.len() + k),
            None => None,
        },
{
    let all = before + s + after;
    let b = before.len() as int;
    let m = pat.len() as int;
    assert forall|j: int| text::occurs_at(all, pat, j) implies b <= j && text::occurs_at(
        s,
        pat,
        j - b,
    ) by {
        assert(all.subrange(j, j + m)[0] == all[j]);
        assert(all.subrange(j, j + m)[m - 1] == all[j + m - 1]);
        if j < b {
            assert(all[j] == before[j]);
        }
        if j + m > b + s.len() {
            assert(all[j + m - 1] == after[j + m - 1 - b - s.len()]);
        }
        assert(s.subrange(j - b, j - b + m) =~= all.subrange(j, j + m));
    }
    match text::first_occurrence(s, pat) {
        Some(k) => {
            text::lemma_first_is_some(s, pat);
            assert(all.subrange(b + k, b + k + m) =~= s.subrange(k, k + m));
            assert forall|j: int| 0 <= j < b + k implies !text::occurs_at(all, pat, j) by {
                if text::occurs_at(all, pat, j) {
                    assert(text::occurs_at(s, pat, j - b));
                }
            }
            text::lemma_first_is(all, pat, b + k);
        },
        None => {
            if text::first_occurrence(all, pat) is Some {
                text::lemma_first_is_some(all, pat);
                let j = text::first_occurrence(all, pat)->0;
                assert(text::occurs_at(s, pat, j - b));
                text::lemma_some_occurrence(s, pat);
            }
        },
    }
}

proof fn lemma_escaped_add(a: Seq<char>, b: Seq<char>)
    ensures
        escaped(a + b) == escaped(a) + escaped(b),
    decreases a.len(),
{
    if a.len() == 0 {
        assert(a + b =~= b);
        assert(escaped(a) + escaped(b) =~= escaped(b));
    } else {
        assert((a + b).skip(1) =~= a.skip(1) + b);
        lemma_escaped_add(a.skip(1), b);
        assert(escaped(a + b) =~= escaped(a) + escaped(b));
    }
}

/// The link that a text begins is the same with more behind it, where that
/// holds no round bracket.
proof fn lemma_link_in_after(s: Seq<char>, after: Seq<char>)
    requires
        lacks(after, '('),
        lacks(after, ')'),
    ensures
        link_in(s + after) == link_in(s),
        link_in(s) matches Some((label, url)) ==> label.len() + url.len() + 3 <= s.len(),
{
    let none = Seq::<char>::empty();
    let middle = seq![']', '('];
    assert(none + s + after =~= s + after);
    lemma_first_between(none, s, after, middle);
    if let Some(label_end) = text::first_occurrence(s, middle) {
        text::lemma_first_is_some(s, middle);
        let tail = s.skip(label_end + 2);
        assert((s + after).skip(label_end + 2) =~= tail + after);
        assert((s + after).take(label_end) =~= s.take(label_end));
        assert(none + tail + after =~= tail + after);
        lemma_first_between(none, tail, after, seq![')']);
        if let Some(url_end) = text::first_occurrence(tail, seq![')']) {
            text::lemma_first_is_some(tail, seq![')']);
            assert((tail + after).take(url_end) =~= tail.take(url_end));
        }
    }
}

#[verifier::spinoff_prover]
proof fn lemma_links_after(s: Seq<char>, after: Seq<char>)
    requires
        lacks(after, '['),
        lacks(after, '('),
        lacks(after, ')'),
    ensures
        links_converted(s + after) == links_converted(s) + after,
    decreases s.len(),
{
    let none = Seq::<char>::empty();
    assert(none + s + after =~= s + after);
    lemma_first_between(none, s, after, seq!['[']);
    if let Some(open) = text::first_occurrence(s, seq!['[']) {
        text::lemma_first_is_some(s, seq!['[']);
        let rest = s.skip(open + 1);
        assert((s + after).skip(open + 1) =~= rest + after);
        assert((s + after).take(open) =~= s.take(open));
        lemma_link_in_after(rest, after);
        match link_in(rest) {
            Some((label, url)) => {
                let n = (label.len() + url.len() + 3) as int;
                let head = s.take(open) + link(label, url);
                assert((rest + after).skip(n) =~= rest.skip(n) + after);
                lemma_links_after(rest.skip(n), after);
                lemma_add_assoc(head, links_converted(rest.skip(n)), after);
            },
            None => {
                lemma_links_after(rest, after);
                lemma_add_assoc(s.take(open).push('['), links_converted(rest), after);
            },
        }
    }
}

proof fn lemma_links_before(before: Seq<char>, s: Seq<char>)
    requires
        lacks(before, '['),
    ensures
        links_converted(before + s) == before + links_converted(s),
{
    let none = Seq::<char>::empty();
    let all = before + s;
    assert(before + s + none =~= all);
    lemma_first_between(before, s, none, seq!['[']);
    if let Some(open) = text::first_occurrence(s, seq!['[']) {
        text::lemma_first_is_some(s, seq!['[']);
        let b = before.len() as int;
        assert(all.skip(b + open + 1) =~= s.skip(open + 1));
        assert(all.take(b + open) =~= before + s.take(open));
        assert(links_converted(all) =~= before + links_converted(s));
    }
}

proof fn lemma_tildes_before(before: Seq<char>, s: Seq<char>)
    requires
        single_tildes(before),
        before.len() > 0 ==> before.last() != '~',
    ensures
        tildes_halved(before + s) == before + tildes_halved(s),
    decreases before.len(),
{
    let all = before + s;
    if before.len() == 0 {
        assert(all =~= s);
    } else {
        lemma_single_tildes_rest(before);
        assert(before.skip(1).len() > 0 ==> before.skip(1).last() == before.last());
        assert(all.skip(1) =~= before.skip(1) + s);
        assert(all[0] == before[0]);
        lemma_tildes_before(before.skip(1), s);
    }
    assert(tildes_halved(all) =~= before + tildes_halved(s));
}

proof fn lemma_tildes_after(s: Seq<char>, after: Seq<char>)
    requires
        single_tildes(after),
        after.len() > 0 ==> after[0] != '~',
    ensures
        tildes_halved(s + after) == tildes_halved(s) + after,
    decreases s.len(),
{
    let all = s + after;
    if s.len() == 0 {
        assert(all =~= after);
        lemma_tildes_same(after);
    } else if s.len() >= 2 && s[0] == '~' && s[1] == '~' {
        assert(all.skip(2) =~= s.skip(2) + after);
        lemma_tildes_after(s.skip(2), after);
    } else {
        assert(all.skip(1) =~= s.skip(1) + after);
        if s.len() == 1 && after.len() > 0 {
            assert(all[1] == after[0]);
        }
        lemma_tildes_after(s.skip(1), after);
    }
    assert(tildes_halved(all) =~= tildes_halved(s) + after);
}

proof fn lemma_stars_before(before: Seq<char>, s: Seq<char>)
    requires
        vstd::utf8::is_ascii_chars(before),
        lacks(before, '*'),
    ensures
        bold_marked(before + s) == before + bold_marked(s),
        italic_marked(before + s) == before + italic_marked(s),
    decreases before.len(),
{
    let all = before + s;
    if before.len() == 0 {
        assert(all =~= s);
    } else {
        lemma_rest(before);
        assert(lacks(before.skip(1), '*'));
        assert(all.skip(1) =~= before.skip(1) + s);
        assert(all[0] == before[0]);
        text::lemma_bytes_as_chars_ascii(before[0]);
        lemma_stars_before(before.skip(1), s);
    }
    assert(bold_marked(all) =~= before + bold_marked(s));
    assert(italic_marked(all) =~= before + italic_marked(s));
}

proof fn lemma_bold_after(s: Seq<char>, after: Seq<char>)
    requires
        vstd::utf8::is_ascii_chars(after),
        lacks(after, '*'),
    ensures
        bold_marked(s + after) == bold_marked(s) + after,
    decreases s.len(),
{
    let all = s + after;
    let none = Seq::<char>::empty();
    if s.len() == 0 {
        assert(all =~= after);
        lemma_stars_same(after);
    } else {
        if s.len() >= 2 {
            assert(all.skip(2) =~= s.skip(2) + after);
            assert(none + s.skip(2) + after =~= all.skip(2));
            lemma_first_between(none, s.skip(2), after, seq!['*', '*']);
        } else if after.len() > 0 {
            assert(all[1] == after[0]);
        }
        assert(bold_end(all) == bold_end(s));
        match bold_end(s) {
            Some(n) => {
                text::lemma_first_is_some(s.skip(2), seq!['*', '*']);
                assert(all.skip(2).take(n) =~= s.skip(2).take(n));
                assert(all.skip(n + 4) =~= s.skip(n + 4) + after);
                lemma_bold_after(s.skip(n + 4), after);
            },
            None => {
                assert(all.skip(1) =~= s.skip(1) + after);
                lemma_bold_after(s.skip(1), after);
            },
        }
    }
    assert(bold_marked(all) =~= bold_marked(s) + after);
}

proof fn lemma_italic_after(s: Seq<char>, after: Seq<char>)
    requires
        vstd::utf8::is_ascii_chars(after),
        lacks(after, '*'),
    ensures
        italic_marked(s + after) == italic_marked(s) + after,
    decreases s.len(),
{
    let all = s + after;
    let none = Seq::<char>::empty();
    if s.len() == 0 {
        assert(all =~= after);
        lemma_stars_same(after);
    } else {
        assert(all.skip(1) =~= s.skip(1) + after);
        assert(none + s.skip(1) + after =~= all.skip(1));
        lemma_first_between(none, s.skip(1), after, seq!['*']);
        assert(italic_end(all) == italic_end(s));
        match italic_end(s) {
            Some(n) => {
                text::lemma_first_is_some(s.skip(1), seq!['*']);
                assert(all.skip(1).take(n) =~= s.skip(1).take(n));
                assert(all.skip(n + 2) =~= s.skip(n + 2) + after);
                lemma_italic_after(s.skip(n + 2), after);
            },
            None => {
                lemma_italic_after(s.skip(1), after);
            },
        }
    }
    assert(italic_marked(all) =~= italic_marked(s) + after);
}

/// The steps up to links leave what stands around a text alone.
proof fn lemma_links_between(before: Seq<char>, s: Seq<char>, after: Seq<char>)
    requires
        lacks(before, '&') && lacks(before, '<') && lacks(before, '>') && lacks(before, '['),
        lacks(after, '&') && lacks(after, '<') && lacks(after, '>') && lacks(after, '['),
        lacks(after, '(') && lacks(after, ')'),
    ensures
        links_converted(escaped(before + s + after)) == before + links_converted(escaped(s))
            + after,
{
    lemma_escaped_add(before + s, after);
    lemma_escaped_add(before, s);
    lemma_escaped_same(before);
    lemma_escaped_same(after);
    lemma_links_after(before + escaped(s), after);
    lemma_links_before(before, escaped(s));
}

/// The steps behind the halving of tildes leave what stands around a text alone.
proof fn lemma_marks_between(before: Seq<char>, s: Seq<char>, after: Seq<char>)
    requires
        vstd::utf8::is_ascii_chars(before) && vstd::utf8::is_ascii_chars(after),
        lacks(before, '*') && lacks(before, BOLD_OPEN) && lacks(before, BOLD_CLOSE),
        lacks(after, '*') && lacks(after, BOLD_OPEN) && lacks(after, BOLD_CLOSE),
    ensures
        marks_resolved(italic_marked(bold_marked(before + s + after))) == before + marks_resolved(
            italic_marked(bold_marked(s)),
        ) + after,
{
    lemma_bold_after(before + s, after);
    lemma_stars_before(before, s);
    let bold = bold_marked(s);
    lemma_italic_after(before + bold, after);
    lemma_stars_before(before, bold);
    let marked = italic_marked(bold);
    assert(marks_resolved(before + marked + after) =~= before + marks_resolved(marked) + after);
}

/// Plain text around a text has no part in what becomes of it, and is itself
/// left as it is. Behind the text, round brackets count as well: one can close
/// a link. A tilde next to the text counts too: it can make a pair.
pub proof fn law_plain_text_around(before: Seq<char>, md: Seq<char>, after: Seq<char>)
    requires
        is_plain(before),
        before.len() > 0 ==> before.last() != '~',
        is_plain(after),
        after.len() > 0 ==> after[0] != '~',
        lacks(after, '('),
        lacks(after, ')'),
        fences_stripped(before + md + after) == before + fences_stripped(md) + after,
    ensures
        mrkdwn(before + md + after) == before + mrkdwn(md) + after,
{
    let bare = fences_stripped(md);
    lemma_links_between(before, bare, after);
    let linked = links_converted(escaped(bare));
    lemma_tildes_after(before + linked, after);
    lemma_tildes_before(before, linked);
    lemma_marks_between(before, tildes_halved(linked), after);
}

/// A single line that is no fence with more behind it keeps all of itself.
pub proof fn law_line_without_fence_kept(line: Seq<char>)
    requires
        lacks(line, '\n'),
        line.len() <= 3 || line.take(3) != fence(),
    ensures
        fences_stripped(line) == line,
{
    if text::first_occurrence(line, seq!['\n']) is Some {
        text::lemma_first_is_some(line, seq!['\n']);
        let k = text::first_occurrence(line, seq!['\n'])->0;
        assert(line[k] == line.subrange(k, k + 1)[0]);
    }
}

/// The language named behind an opening fence is dropped.
pub proof fn law_fence_language_dropped(language: Seq<char>, rest: Seq<char>)
    requires
        lacks(language, '\n'),
    ensures
        fences_stripped(fence() + language + seq!['\n'] + rest) == fence().push('\n')
            + fences_stripped(rest),
{
    let line = fence() + language;
    let s = line + seq!['\n'] + rest;
    lemma_first_after(line, seq!['\n'], rest);
    assert(s.take(line.len() as int) =~= line);
    assert(s.skip(line.len() + 1int) =~= rest);
    let bare = without_cr(line);
    assert(bare.take(3) =~= fence());
    if bare.len() == 3 {
        assert(bare =~= fence());
    }
}

/// Whether `s` is of ASCII characters without `c`.
spec fn is_calm(s: Seq<char>, c: char) -> bool {
    vstd::utf8::is_ascii_chars(s) && lacks(s, c)
}

proof fn lemma_escaped_lacks(s: Seq<char>, c: char)
    requires
        c == '*' || c == '~',
        lacks(s, c),
    ensures
        lacks(escaped(s), c),
        vstd::utf8::is_ascii_chars(s) ==> vstd::utf8::is_ascii_chars(escaped(s)),
        s.len() > 0 ==> escaped(s).len() > 0,
    decreases s.len(),
{
    if s.len() > 0 {
        lemma_rest(s);
        lemma_escaped_lacks(s.skip(1), c);
        assert(lacks(entity(s[0]), c));
    }
}

proof fn lemma_links_lacks(s: Seq<char>, c: char)
    requires
        c == '*' || c == '~',
        lacks(s, c),
    ensures
        lacks(links_converted(s), c),
        vstd::utf8::is_ascii_chars(s) ==> vstd::utf8::is_ascii_chars(links_converted(s)),
        s.len() > 0 ==> links_converted(s).len() > 0,
    decreases s.len(),
{
    if let Some(open) = text::first_occurrence(s, seq!['[']) {
        text::lemma_first_is_some(s, seq!['[']);
        let after = s.skip(open + 1);
        match link_in(after) {
            Some((label, url)) => {
                text::lemma_first_is_some(after, seq![']', '(']);
                let rest = after.skip(label.len() + 2int);
                text::lemma_first_is_some(rest, seq![')']);
                let tail = after.skip((label.len() + url.len() + 3) as int);
                lemma_links_lacks(tail, c);
                assert forall|i: int| 0 <= i < label.len() implies label[i] == s[open + 1 + i] by {}
                assert forall|i: int| 0 <= i < url.len() implies url[i] == s[open + label.len() + 3
                    + i] by {}
                assert(lacks(link(label, url), c));
            },
            None => {
                lemma_links_lacks(after, c);
            },
        }
    }
}

proof fn lemma_tildes_lacks(s: Seq<char>, c: char)
    requires
        c == '*',
        lacks(s, c),
    ensures
        lacks(tildes_halved(s), c),
        vstd::utf8::is_ascii_chars(s) ==> vstd::utf8::is_ascii_chars(tildes_halved(s)),
        s.len() > 0 ==> tildes_halved(s).len() > 0,
    decreases s.len(),
{
    if s.len() == 0 {
    } else if s.len() >= 2 && s[0] == '~' && s[1] == '~' {
        lemma_tildes_lacks(s.skip(2), c);
    } else {
        lemma_tildes_lacks(s.skip(1), c);
    }
}

/// What the steps before bold spans make of a text.
spec fn before_bold(md: Seq<char>) -> Seq<char> {
    tildes_halved(links_converted(escaped(fences_stripped(md))))
}

/// A text without stars stays one up to bold spans, where stars around it are
/// left alone.
proof fn lemma_starred(stars: Seq<char>, inner: Seq<char>)
    requires
        is_calm(fences_stripped(inner), '*'),
        forall|i: int| 0 <= i < stars.len() ==> stars[i] == '*',
        fences_stripped(stars + inner + stars) == stars + fences_stripped(inner) + stars,
    ensures
        is_calm(before_bold(inner), '*'),
        fences_stripped(inner).len() > 0 ==> before_bold(inner).len() > 0,
        before_bold(stars + inner + stars) == stars + before_bold(inner) + stars,
        mrkdwn(inner) == marks_resolved(before_bold(inner)),
{
    let bare = fences_stripped(inner);
    lemma_escaped_lacks(bare, '*');
    lemma_links_lacks(escaped(bare), '*');
    let linked = links_converted(escaped(bare));
    lemma_tildes_lacks(linked, '*');
    lemma_links_between(stars, bare, stars);
    lemma_tildes_after(stars + linked, stars);
    lemma_tildes_before(stars, linked);
    lemma_stars_same(before_bold(inner));
}

/// `**text**` comes out as `*text*`, the text as it comes out by itself, where
/// it is of ASCII characters without stars.
pub proof fn law_bold(inner: Seq<char>)
    requires
        vstd::utf8::is_ascii_chars(fences_stripped(inner)),
        lacks(fences_stripped(inner), '*'),
        ({
            let stars = seq!['*', '*'];
            fences_stripped(stars + inner + stars) == stars + fences_stripped(inner) + stars
        }),
    ensures
        mrkdwn(seq!['*', '*'] + inner + seq!['*', '*']) == seq!['*'] + mrkdwn(inner) + seq!['*'],
{
    lemma_starred(seq!['*', '*'], inner);
    let body = before_bold(inner);
    lemma_bold_span(body);
    let marked = seq![BOLD_OPEN] + body + seq![BOLD_CLOSE];
    lemma_stars_same(marked);
    assert(marks_resolved(marked) =~= seq!['*'] + marks_resolved(body) + seq!['*']);
}

/// `*text*` comes out as `_text_`, the text as it comes out by itself, where it
/// is of ASCII characters without stars and not empty.
pub proof fn law_italic(inner: Seq<char>)
    requires
        vstd::utf8::is_ascii_chars(fences_stripped(inner)),
        lacks(fences_stripped(inner), '*'),
        fences_stripped(inner).len() > 0,
        ({
            let star = seq!['*'];
            fences_stripped(star + inner + star) == star + fences_stripped(inner) + star
        }),
    ensures
        mrkdwn(seq!['*'] + inner + seq!['*']) == seq!['_'] + mrkdwn(inner) + seq!['_'],
{
    lemma_starred(seq!['*'], inner);
    let body = before_bold(inner);
    lemma_lone_stars(body);
    lemma_italic_span(body);
    let marked = seq!['_'] + body + seq!['_'];
    assert(marks_resolved(marked) =~= seq!['_'] + marks_resolved(body) + seq!['_']);
}

/// Single stars are no bold marks.
proof fn lemma_lone_stars(inner: Seq<char>)
    requires
        is_calm(inner, '*'),
        inner.len() > 0,
    ensures
        bold_marked(seq!['*'] + inner + seq!['*']) == seq!['*'] + inner + seq!['*'],
{
    let star = seq!['*'];
    let all = star + inner + star;
    text::lemma_bytes_as_chars_ascii('*');
    assert(star.skip(1) =~= Seq::<char>::empty());
    assert(bold_marked(star.skip(1)) =~= Seq::<char>::empty());
    assert(bold_marked(star) =~= star);
    assert(all[1] == inner[0]);
    assert(all.skip(1) =~= inner + star);
    lemma_stars_before(inner, star);
    assert(bold_marked(all) =~= all);
}

/// `~~text~~` comes out as `~text~`, the text as it comes out by itself, where
/// it is without tildes.
pub proof fn law_strike(inner: Seq<char>)
    requires
        lacks(fences_stripped(inner), '~'),
        ({
            let tildes = seq!['~', '~'];
            fences_stripped(tildes + inner + tildes) == tildes + fences_stripped(inner) + tildes
        }),
    ensures
        mrkdwn(seq!['~', '~'] + inner + seq!['~', '~']) == seq!['~'] + mrkdwn(inner) + seq!['~'],
{
    let tildes = seq!['~', '~'];
    let bare = fences_stripped(inner);
    lemma_links_between(tildes, bare, tildes);
    lemma_escaped_lacks(bare, '~');
    lemma_links_lacks(escaped(bare), '~');
    let linked = links_converted(escaped(bare));
    let all = tildes + linked + tildes;
    assert(all.skip(2) =~= linked + tildes);
    lemma_tildes_before(linked, tildes);
    lemma_tildes_same(linked);
    assert(tildes.skip(2) =~= Seq::<char>::empty());
    assert(tildes_halved(tildes.skip(2)) =~= Seq::<char>::empty());
    assert(tildes_halved(tildes) =~= seq!['~']);
    assert(tildes_halved(all) =~= seq!['~'] + linked + seq!['~']);
    lemma_marks_between(seq!['~'], linked, seq!['~']);
}

/// A link as Markdown writes it.
pub open spec fn link_source(label: Seq<char>, url: Seq<char>) -> Seq<char> {
    seq!['['] + (label + seq![']', '('] + (url + seq![')']))
}

/// The label ends at the first `](`.
proof fn lemma_label_end(label: Seq<char>, rest: Seq<char>)
    requires
        !text::contains_text(label, seq![']', '(']),
    ensures
        text::first_occurrence(label + seq![']', '('] + rest, seq![']', '(']) == Some(
            label.len() as int,
        ),
{
    let middle = seq![']', '('];
    let after = label + middle + rest;
    let n = label.len() as int;
    assert(after.subrange(n, n + 2) =~= middle);
    assert forall|j: int| 0 <= j < n implies !text::occurs_at(after, middle, j) by {
        if text::occurs_at(after, middle, j) {
            assert(after[j + 1] == after.subrange(j, j + 2)[1]);
            if j + 2 <= n {
                assert(label.subrange(j, j + 2) =~= after.subrange(j, j + 2));
                assert(text::occurs_at(label, middle, j));
            } else {
                assert(after[j + 1] == ']');
            }
        }
    }
    text::lemma_first_is(after, middle, n);
}

#[verifier::spinoff_prover]
proof fn lemma_link_in(label: Seq<char>, url: Seq<char>)
    requires
        !text::contains_text(label, seq![']', '(']),
        lacks(url, ')'),
    ensures
        link_in(label + seq![']', '('] + (url + seq![')'])) == Some((label, url)),
{
    let rest = url + seq![')'];
    let after = label + seq![']', '('] + rest;
    let n = label.len() as int;
    lemma_label_end(label, rest);
    lemma_first_after(url, seq![')'], Seq::empty());
    assert(rest =~= url + seq![')'] + Seq::<char>::empty());
    assert(after.skip(n + 2) =~= rest);
    assert(after.take(n) =~= label);
    assert(rest.take(url.len() as int) =~= url);
}

#[verifier::spinoff_prover]
proof fn lemma_link_span(label: Seq<char>, url: Seq<char>)
    requires
        !text::contains_text(label, seq![']', '(']),
        lacks(url, ')'),
    ensures
        links_converted(link_source(label, url)) == link(label, url),
{
    let md = link_source(label, url);
    let after = label + seq![']', '('] + (url + seq![')']);
    lemma_first_after(Seq::empty(), seq!['['], after);
    assert(md =~= Seq::<char>::empty() + seq!['['] + after);
    assert(md.skip(1) =~= after);
    lemma_link_in(label, url);
    let end = after.skip((label.len() + url.len() + 3) as int);
    assert(end =~= Seq::<char>::empty());
    lemma_links_same(end);
    assert(md.take(0) + link(label, url) + Seq::<char>::empty() =~= link(label, url));
}

proof fn lemma_add_lacks(a: Seq<char>, b: Seq<char>, c: char)
    requires
        lacks(a, c),
        lacks(b, c),
    ensures
        lacks(a + b, c),
{
}

/// What is in neither part of a link is in neither form of it.
proof fn lemma_link_lacks(label: Seq<char>, url: Seq<char>, c: char)
    requires
        lacks(label, c),
        lacks(url, c),
    ensures
        c != '<' && c != '|' && c != '>' ==> lacks(link(label, url), c),
        c != '[' && c != ']' && c != '(' && c != ')' ==> lacks(link_source(label, url), c),
{
    if c != '<' && c != '|' && c != '>' {
        lemma_add_lacks(seq!['<'], url, c);
        lemma_add_lacks(seq!['<'] + url, seq!['|'], c);
        lemma_add_lacks(seq!['<'] + url + seq!['|'], label, c);
        lemma_add_lacks(seq!['<'] + url + seq!['|'] + label, seq!['>'], c);
    }
    if c != '[' && c != ']' && c != '(' && c != ')' {
        lemma_add_lacks(url, seq![')'], c);
        lemma_add_lacks(label, seq![']', '('], c);
        lemma_add_lacks(label + seq![']', '('], url + seq![')'], c);
        lemma_add_lacks(seq!['['], label + seq![']', '('] + (url + seq![')']), c);
    }
}

proof fn lemma_link_single_tildes(label: Seq<char>, url: Seq<char>)
    requires
        single_tildes(label),
        single_tildes(url),
    ensures
        single_tildes(link(label, url)),
{
    let linked = link(label, url);
    let n = url.len() as int;
    assert(linked.len() == n + label.len() + 3);
    assert(linked[0] == '<' && linked[n + 1] == '|' && linked.last() == '>');
    assert forall|i: int| 1 <= i <= n implies linked[i] == url[i - 1] by {}
    assert forall|i: int| n + 2 <= i < linked.len() - 1 implies linked[i] == label[i - n - 2] by {}
    assert forall|i: int| 0 <= i < linked.len() - 1 && linked[i] == '~' implies #[trigger] linked[i
        + 1] != '~' by {
        if 1 <= i && i < n {
            assert(url[(i - 1) + 1] != '~');
        } else if n + 2 <= i && i + 2 < linked.len() {
            assert(label[(i - n - 2) + 1] != '~');
        }
    }
}

proof fn lemma_link_ascii(label: Seq<char>, url: Seq<char>)
    requires
        vstd::utf8::is_ascii_chars(label),
        vstd::utf8::is_ascii_chars(url),
    ensures
        vstd::utf8::is_ascii_chars(link(label, url)),
{
}

/// The steps behind links leave a text without stars, marks and pairs of tildes
/// alone.
proof fn lemma_rest_same(s: Seq<char>)
    requires
        is_calm(s, '*'),
        single_tildes(s),
        lacks(s, BOLD_OPEN),
        lacks(s, BOLD_CLOSE),
    ensures
        marks_resolved(italic_marked(bold_marked(tildes_halved(s)))) == s,
{
    lemma_tildes_same(s);
    lemma_stars_same(s);
    lemma_marks_same(s);
}

/// The steps up to links make a link of its source.
proof fn lemma_link_made(label: Seq<char>, url: Seq<char>)
    requires
        is_plain(label),
        is_plain(url),
        !text::contains_text(label, seq![']', '(']),
        lacks(url, ')'),
    ensures
        links_converted(escaped(link_source(label, url))) == link(label, url),
{
    lemma_link_lacks(label, url, '&');
    lemma_link_lacks(label, url, '<');
    lemma_link_lacks(label, url, '>');
    lemma_escaped_same(link_source(label, url));
    lemma_link_span(label, url);
}

/// A link of plain parts is left alone by the steps behind links.
proof fn lemma_link_same(label: Seq<char>, url: Seq<char>)
    requires
        is_plain(label),
        is_plain(url),
    ensures
        marks_resolved(italic_marked(bold_marked(tildes_halved(link(label, url))))) == link(
            label,
            url,
        ),
{
    lemma_link_single_tildes(label, url);
    lemma_link_ascii(label, url);
    lemma_link_lacks(label, url, '*');
    lemma_link_lacks(label, url, BOLD_OPEN);
    lemma_link_lacks(label, url, BOLD_CLOSE);
    lemma_rest_same(link(label, url));
}

/// `[label](url)` comes out as `<url|label>`.
#[verifier::spinoff_prover]
pub proof fn law_link(label: Seq<char>, url: Seq<char>)
    requires
        is_plain(label),
        is_plain(url),
        !text::contains_text(label, seq![']', '(']),
        lacks(url, ')'),
        fences_stripped(link_source(label, url)) == link_source(label, url),
    ensures
        mrkdwn(link_source(label, url)) == link(label, url),
{
    lemma_link_made(label, url);
    lemma_link_same(label, url);
}

// ---------------------------------------------------------------------------
// Entities
// ---------------------------------------------------------------------------

/// Whether one of the entities that stand for `&`, `<` and `>` stands in `s` at
/// position `i`.
pub open spec fn entity_at(s: Seq<char>, i: int) -> bool {
    ||| text::occurs_at(s, entity('&'), i)
    ||| text::occurs_at(s, entity('<'), i)
    ||| text::occurs_at(s, entity('>'), i)
}

/// Whether every `&` in `s` begins an entity.
pub open spec fn is_well_escaped(s: Seq<char>) -> bool {
    forall|i: int| 0 <= i < s.len() && #[trigger] s[i] == '&' ==> entity_at(s, i)
}

/// Whether `e` is an entity.
spec fn is_entity(e: Seq<char>) -> bool {
    e == entity('&') || e == entity('<') || e == entity('>')
}

/// The entity that stands at position `i`.
proof fn lemma_entity_at(s: Seq<char>, i: int) -> (e: Seq<char>)
    requires
        entity_at(s, i),
    ensures
        is_entity(e),
        text::occurs_at(s, e, i),
        forall|j: int| 0 <= j < e.len() ==> s[i + j] == #[trigger] e[j],
{
    let e = if text::occurs_at(s, entity('&'), i) {
        entity('&')
    } else if text::occurs_at(s, entity('<'), i) {
        entity('<')
    } else {
        entity('>')
    };
    assert forall|j: int| 0 <= j < e.len() implies s[i + j] == #[trigger] e[j] by {
        assert(s.subrange(i, i + e.len())[j] == s[i + j]);
    }
    e
}

proof fn lemma_escapes_add(a: Seq<char>, b: Seq<char>)
    requires
        is_well_escaped(a),
        is_well_escaped(b),
    ensures
        is_well_escaped(a + b),
{
    let all = a + b;
    assert forall|i: int| 0 <= i < all.len() && #[trigger] all[i] == '&' implies entity_at(
        all,
        i,
    ) by {
        if i < a.len() {
            assert(a[i] == '&');
            let e = lemma_entity_at(a, i);
            assert(all.subrange(i, i + e.len()) =~= e);
        } else {
            let k = i - a.len();
            assert(b[k] == '&');
            let e = lemma_entity_at(b, k);
            assert(all.subrange(i, i + e.len()) =~= e);
        }
    }
}

proof fn lemma_escapes_lacking(s: Seq<char>)
    requires
        lacks(s, '&'),
    ensures
        is_well_escaped(s),
{
}

proof fn lemma_escapes_skip(s: Seq<char>, k: int)
    requires
        is_well_escaped(s),
        0 <= k <= s.len(),
    ensures
        is_well_escaped(s.skip(k)),
{
    let t = s.skip(k);
    assert forall|i: int| 0 <= i < t.len() && #[trigger] t[i] == '&' implies entity_at(t, i) by {
        assert(s[k + i] == '&');
        let e = lemma_entity_at(s, k + i);
        assert(t.subrange(i, i + e.len()) =~= e);
    }
}

/// An entity is not cut by a character that no entity holds.
proof fn lemma_escapes_take(s: Seq<char>, k: int)
    requires
        is_well_escaped(s),
        0 <= k < s.len(),
        s[k] == '[' || s[k] == ']' || s[k] == ')' || s[k] == '*',
    ensures
        is_well_escaped(s.take(k)),
{
    let t = s.take(k);
    assert forall|i: int| 0 <= i < t.len() && #[trigger] t[i] == '&' implies entity_at(t, i) by {
        assert(s[i] == '&');
        let e = lemma_entity_at(s, i);
        if i + e.len() > k {
            assert(s[i + (k - i)] == e[k - i]);
        }
        assert(t.subrange(i, i + e.len()) =~= e);
    }
}

/// A text that begins with `&` begins with an entity.
proof fn lemma_escapes_head(s: Seq<char>) -> (e: Seq<char>)
    requires
        is_well_escaped(s),
        s.len() > 0,
        s[0] == '&',
    ensures
        is_entity(e),
        0 < e.len() <= s.len(),
        s == e + s.skip(e.len() as int),
        is_well_escaped(s.skip(e.len() as int)),
        is_well_escaped(e),
        is_calm(e, '*'),
        lacks(e, '~'),
{
    let e = lemma_entity_at(s, 0);
    assert(s =~= e + s.skip(e.len() as int));
    lemma_escapes_skip(s, e.len() as int);
    lemma_entity_escaped(e);
    e
}

proof fn lemma_entity_escaped(e: Seq<char>)
    requires
        is_entity(e),
    ensures
        is_well_escaped(e),
{
    assert(e.subrange(0, 0int + e.len()) =~= e);
    assert(entity_at(e, 0));
    assert forall|i: int| 0 <= i < e.len() && #[trigger] e[i] == '&' implies entity_at(e, i) by {
        assert(i == 0);
    }
}

proof fn lemma_escaped_escapes(s: Seq<char>)
    ensures
        is_well_escaped(escaped(s)),
    decreases s.len(),
{
    if s.len() > 0 {
        lemma_escaped_escapes(s.skip(1));
        let e = entity(s[0]);
        if s[0] == '&' || s[0] == '<' || s[0] == '>' {
            lemma_entity_escaped(e);
        } else {
            lemma_escapes_lacking(e);
        }
        lemma_escapes_add(e, escaped(s.skip(1)));
    }
}

proof fn lemma_link_escapes(after: Seq<char>)
    requires
        is_well_escaped(after),
    ensures
        link_in(after) matches Some((label, url)) ==> is_well_escaped(link(label, url)) && label.len()
            + url.len() + 3 <= after.len(),
{
    if let Some((label, url)) = link_in(after) {
        let middle = seq![']', '('];
        text::lemma_first_is_some(after, middle);
        let n = text::first_occurrence(after, middle)->0;
        assert(after[n] == after.subrange(n, n + 2)[0]);
        lemma_escapes_take(after, n);
        let rest = after.skip(n + 2);
        lemma_escapes_skip(after, n + 2);
        lemma_first_char(rest, ')');
        let m = text::first_occurrence(rest, seq![')'])->0;
        lemma_escapes_take(rest, m);
        lemma_escapes_lacking(seq!['<']);
        lemma_escapes_lacking(seq!['|']);
        lemma_escapes_lacking(seq!['>']);
        lemma_escapes_add(seq!['<'], url);
        lemma_escapes_add(seq!['<'] + url, seq!['|']);
        lemma_escapes_add(seq!['<'] + url + seq!['|'], label);
        lemma_escapes_add(seq!['<'] + url + seq!['|'] + label, seq!['>']);
    }
}

proof fn lemma_links_escapes(s: Seq<char>)
    requires
        is_well_escaped(s),
    ensures
        is_well_escaped(links_converted(s)),
    decreases s.len(),
{
    lemma_first_char(s, '[');
    if let Some(open) = text::first_occurrence(s, seq!['[']) {
        let pre = s.take(open);
        let after = s.skip(open + 1);
        lemma_escapes_take(s, open);
        lemma_escapes_skip(s, open + 1);
        lemma_link_escapes(after);
        match link_in(after) {
            Some((label, url)) => {
                let rest = after.skip((label.len() + url.len() + 3) as int);
                lemma_escapes_skip(after, (label.len() + url.len() + 3) as int);
                lemma_links_escapes(rest);
                lemma_escapes_add(pre, link(label, url));
                lemma_escapes_add(pre + link(label, url), links_converted(rest));
            },
            None => {
                lemma_links_escapes(after);
                lemma_escapes_lacking(seq!['[']);
                lemma_escapes_add(pre, seq!['[']);
                assert(pre.push('[') =~= pre + seq!['[']);
                lemma_escapes_add(pre.push('['), links_converted(after));
            },
        }
    }
}

proof fn lemma_tildes_escapes(s: Seq<char>)
    requires
        is_well_escaped(s),
    ensures
        is_well_escaped(tildes_halved(s)),
    decreases s.len(),
{
    if s.len() == 0 {
    } else if s[0] == '&' {
        let e = lemma_escapes_head(s);
        let rest = s.skip(e.len() as int);
        lemma_tildes_before(e, rest);
        lemma_tildes_escapes(rest);
        lemma_escapes_add(e, tildes_halved(rest));
    } else if s.len() >= 2 && s[0] == '~' && s[1] == '~' {
        lemma_escapes_skip(s, 2);
        lemma_tildes_escapes(s.skip(2));
        lemma_escapes_lacking(seq!['~']);
        lemma_escapes_add(seq!['~'], tildes_halved(s.skip(2)));
    } else {
        lemma_escapes_skip(s, 1);
        lemma_tildes_escapes(s.skip(1));
        lemma_escapes_lacking(seq![s[0]]);
        lemma_escapes_add(seq![s[0]], tildes_halved(s.skip(1)));
    }
}

/// A span between two marks that are not `&`.
proof fn lemma_span_escapes(a: char, inner: Seq<char>, b: char, rest: Seq<char>)
    requires
        a != '&',
        b != '&',
        is_well_escaped(inner),
        is_well_escaped(rest),
    ensures
        is_well_escaped(seq![a] + inner + seq![b] + rest),
{
    lemma_escapes_lacking(seq![a]);
    lemma_escapes_lacking(seq![b]);
    lemma_escapes_add(seq![a], inner);
    lemma_escapes_add(seq![a] + inner, seq![b]);
    lemma_escapes_add(seq![a] + inner + seq![b], rest);
}

proof fn lemma_bytes_escapes(c: char)
    requires
        c != '&',
    ensures
        is_well_escaped(text::bytes_as_chars(c)),
{
    if c <= '\u{7f}' {
        text::lemma_bytes_as_chars_ascii(c);
    } else {
        text::lemma_bytes_as_chars_wide(c);
    }
    lemma_escapes_lacking(text::bytes_as_chars(c));
}

proof fn lemma_bold_escapes(s: Seq<char>)
    requires
        is_well_escaped(s),
    ensures
        is_well_escaped(bold_marked(s)),
    decreases s.len(),
{
    if s.len() == 0 {
    } else if s[0] == '&' {
        let e = lemma_escapes_head(s);
        let rest = s.skip(e.len() as int);
        lemma_stars_before(e, rest);
        lemma_bold_escapes(rest);
        lemma_escapes_add(e, bold_marked(rest));
    } else {
        match bold_end(s) {
            Some(n) => {
                let mark = seq!['*', '*'];
                text::lemma_first_is_some(s.skip(2), mark);
                assert(s.skip(2)[n] == s.skip(2).subrange(n, n + 2)[0]);
                lemma_escapes_skip(s, 2);
                lemma_escapes_take(s.skip(2), n);
                lemma_escapes_skip(s, n + 4);
                lemma_bold_escapes(s.skip(n + 4));
                lemma_span_escapes(
                    BOLD_OPEN,
                    s.skip(2).take(n),
                    BOLD_CLOSE,
                    bold_marked(s.skip(n + 4)),
                );
            },
            None => {
                lemma_escapes_skip(s, 1);
                lemma_bold_escapes(s.skip(1));
                lemma_bytes_escapes(s[0]);
                lemma_escapes_add(text::bytes_as_chars(s[0]), bold_marked(s.skip(1)));
            },
        }
    }
}

proof fn lemma_italic_escapes(s: Seq<char>)
    requires
        is_well_escaped(s),
    ensures
        is_well_escaped(italic_marked(s)),
    decreases s.len(),
{
    if s.len() == 0 {
    } else if s[0] == '&' {
        let e = lemma_escapes_head(s);
        let rest = s.skip(e.len() as int);
        lemma_stars_before(e, rest);
        lemma_italic_escapes(rest);
        lemma_escapes_add(e, italic_marked(rest));
    } else {
        match italic_end(s) {
            Some(n) => {
                lemma_first_char(s.skip(1), '*');
                lemma_escapes_skip(s, 1);
                lemma_escapes_take(s.skip(1), n);
                lemma_escapes_skip(s, n + 2);
                lemma_italic_escapes(s.skip(n + 2));
                lemma_span_escapes(
                    '_',
                    s.skip(1).take(n),
                    '_',
                    italic_marked(s.skip(n + 2)),
                );
            },
            None => {
                lemma_escapes_skip(s, 1);
                lemma_italic_escapes(s.skip(1));
                lemma_bytes_escapes(s[0]);
                lemma_escapes_add(text::bytes_as_chars(s[0]), italic_marked(s.skip(1)));
            },
        }
    }
}

proof fn lemma_marks_escapes(s: Seq<char>)
    requires
        is_well_escaped(s),
    ensures
        is_well_escaped(marks_resolved(s)),
{
    let t = marks_resolved(s);
    assert forall|i: int| 0 <= i < t.len() && #[trigger] t[i] == '&' implies entity_at(t, i) by {
        assert(s[i] == '&');
        let e = lemma_entity_at(s, i);
        assert forall|j: int| 0 <= j < e.len() implies t[i + j] == #[trigger] e[j] by {
            assert(s[i + j] == e[j]);
        }
        assert(t.subrange(i, i + e.len()) =~= e);
    }
}

/// Every `&` in the result begins an entity that stands for `&`, `<` or `>`.
pub proof fn law_ampersands_begin_entities(md: Seq<char>)
    ensures
        is_well_escaped(mrkdwn(md)),
{
    let plain = escaped(fences_stripped(md));
    let linked = links_converted(plain);
    let struck = tildes_halved(linked);
    let bold = bold_marked(struck);
    lemma_escaped_escapes(fences_stripped(md));
    lemma_links_escapes(plain);
    lemma_tildes_escapes(linked);
    lemma_bold_escapes(struck);
    lemma_italic_escapes(bold);
    lemma_marks_escapes(italic_marked(bold));
}

// ---------------------------------------------------------------------------
// What becomes of a text, piece by piece from its beginning
// ---------------------------------------------------------------------------

/// Whether `s` begins with three backticks.
pub open spec fn opens_fence(s: Seq<char>) -> bool {
    s.len() >= 3 && s[0] == '`' && s[1] == '`' && s[2] == '`'
}

/// Whether `s` is without line ends.
pub open spec fn is_one_line(s: Seq<char>) -> bool {
    lacks(s, '\n') && lacks(s, '\r')
}

/// What the steps behind the fences make of a text.
spec fn converted(s: Seq<char>) -> Seq<char> {
    marks_resolved(
        italic_marked(bold_marked(tildes_halved(links_converted(escaped(s))))),
    )
}

proof fn lemma_fences_before(head: Seq<char>, s: Seq<char>)
    requires
        is_one_line(head),
        !opens_fence(head + s),
        !opens_fence(s),
    ensures
        fences_stripped(head + s) == head + fences_stripped(s),
{
    let none = Seq::<char>::empty();
    let all = head + s;
    let n = head.len() as int;
    assert(head + s + none =~= all);
    lemma_first_between(head, s, none, seq!['\n']);
    match text::first_occurrence(s, seq!['\n']) {
        Some(k) => {
            text::lemma_first_is_some(s, seq!['\n']);
            let line = without_cr(s.take(k));
            assert(all.take(n + k) =~= head + s.take(k));
            assert(without_cr(all.take(n + k)) =~= head + line);
            assert(all.skip(n + k + 1) =~= s.skip(k + 1));
            assert(all.take((head + line).len() as int) =~= head + line);
            assert(s.take(line.len() as int) =~= line);
            lemma_no_fence(head + line, all);
            lemma_no_fence(line, s);
            assert(fences_stripped(all) =~= head + fences_stripped(s));
        },
        None => {
            assert(all.take(all.len() as int) =~= all);
            assert(s.take(s.len() as int) =~= s);
            lemma_no_fence(all, all);
            lemma_no_fence(s, s);
        },
    }
}

/// A line that begins a text without a fence has none.
proof fn lemma_no_fence(line: Seq<char>, s: Seq<char>)
    requires
        line.len() <= s.len(),
        s.take(line.len() as int) == line,
        !opens_fence(s),
    ensures
        bare_fence(line) == line,
{
    if line.len() > 3 && line.take(3) == fence() {
        assert(line.take(3)[0] == s[0] && line.take(3)[1] == s[1] && line.take(3)[2] == s[2]);
    }
}

proof fn lemma_fences_first(s: Seq<char>)
    requires
        !opens_fence(s),
    ensures
        s.len() == 0 ==> fences_stripped(s).len() == 0,
        s.len() > 0 ==> fences_stripped(s).len() > 0 && (fences_stripped(s)[0] == s[0] || (s[0]
            == '\r' && fences_stripped(s)[0] == '\n')),
{
    lemma_first_char(s, '\n');
    match text::first_occurrence(s, seq!['\n']) {
        Some(k) => {
            let line = without_cr(s.take(k));
            assert(s.take(line.len() as int) =~= line);
            lemma_no_fence(line, s);
        },
        None => {
            assert(s.take(s.len() as int) =~= s);
            lemma_no_fence(s, s);
        },
    }
}

proof fn lemma_fences_lacks(s: Seq<char>, c: char)
    requires
        c != '`' && c != '\n',
        lacks(s, c),
    ensures
        lacks(fences_stripped(s), c),
    decreases s.len(),
{
    lemma_first_char(s, '\n');
    if let Some(k) = text::first_occurrence(s, seq!['\n']) {
        lemma_fences_lacks(s.skip(k + 1), c);
        assert(lacks(bare_fence(without_cr(s.take(k))), c));
    }
}

/// Whether `c` is none of the characters of entities.
spec fn is_no_entity_char(c: char) -> bool {
    &&& c != '&' && c != 'a' && c != 'm' && c != 'p' && c != ';'
    &&& c != 'l' && c != 't' && c != 'g'
}

proof fn lemma_escaped_still_lacks(s: Seq<char>, c: char)
    requires
        is_no_entity_char(c),
        lacks(s, c),
    ensures
        lacks(escaped(s), c),
    decreases s.len(),
{
    if s.len() > 0 {
        lemma_rest(s);
        assert(lacks(s.skip(1), c));
        lemma_escaped_still_lacks(s.skip(1), c);
        assert(lacks(entity(s[0]), c));
    }
}

/// The first character stays away through escaping and links.
proof fn lemma_first_stays_away(s: Seq<char>, c: char)
    requires
        c == '~' || c == '*',
        s.len() > 0 ==> s[0] != c,
    ensures
        links_converted(escaped(s)).len() > 0 ==> links_converted(escaped(s))[0] != c,
{
    let e = escaped(s);
    lemma_first_char(e, '[');
    if s.len() == 0 {
        assert(e =~= Seq::<char>::empty());
    } else {
        assert(e[0] == entity(s[0])[0]);
    }
}

proof fn lemma_tildes_add(a: Seq<char>, b: Seq<char>)
    requires
        a.len() > 0 && b.len() > 0 ==> a.last() != '~' || b[0] != '~',
    ensures
        tildes_halved(a + b) == tildes_halved(a) + tildes_halved(b),
    decreases a.len(),
{
    let all = a + b;
    if a.len() == 0 {
        assert(all =~= b);
    } else if a.len() >= 2 && a[0] == '~' && a[1] == '~' {
        assert(all.skip(2) =~= a.skip(2) + b);
        lemma_tildes_add(a.skip(2), b);
    } else {
        assert(all.skip(1) =~= a.skip(1) + b);
        if a.len() == 1 && b.len() > 0 {
            assert(all[1] == b[0]);
        }
        lemma_tildes_add(a.skip(1), b);
    }
    assert(tildes_halved(all) =~= tildes_halved(a) + tildes_halved(b));
}

/// The steps behind links take a head without stars for itself.
proof fn lemma_head(head: Seq<char>, rest: Seq<char>)
    requires
        is_calm(head, '*'),
        head.len() > 0 && rest.len() > 0 ==> head.last() != '~' || rest[0] != '~',
    ensures
        marks_resolved(italic_marked(bold_marked(tildes_halved(head + rest)))) == marks_resolved(
            tildes_halved(head),
        ) + marks_resolved(italic_marked(bold_marked(tildes_halved(rest)))),
{
    let h = tildes_halved(head);
    let r = tildes_halved(rest);
    lemma_tildes_add(head, rest);
    lemma_tildes_lacks(head, '*');
    lemma_stars_before(h, r);
    lemma_stars_before(h, bold_marked(r));
    let marked = italic_marked(bold_marked(r));
    assert(marks_resolved(h + marked) =~= marks_resolved(h) + marks_resolved(marked));
}

/// A head without links and stars is taken for itself.
proof fn lemma_simple_head(head: Seq<char>, rest: Seq<char>)
    requires
        is_calm(head, '*'),
        lacks(head, '['),
        head.len() > 0 ==> head.last() != '~' || (rest.len() > 0 ==> rest[0] != '~'),
    ensures
        converted(head + rest) == marks_resolved(tildes_halved(escaped(head))) + converted(rest),
{
    lemma_escaped_add(head, rest);
    lemma_escaped_lacks(head, '*');
    lemma_escaped_still_lacks(head, '[');
    lemma_links_before(escaped(head), escaped(rest));
    if head.len() > 0 {
        lemma_escaped_last(head);
        if head.last() == '~' {
            lemma_first_stays_away(rest, '~');
        }
    }
    lemma_head(escaped(head), links_converted(escaped(rest)));
}

proof fn lemma_escaped_one(c: char)
    ensures
        escaped(seq![c]) == entity(c),
{
    let none = Seq::<char>::empty();
    assert(seq![c].skip(1) =~= none);
    assert(escaped(none) =~= none);
    assert(entity(c) + none =~= entity(c));
}

proof fn lemma_escaped_last(s: Seq<char>)
    requires
        s.len() > 0,
    ensures
        escaped(s).len() > 0,
        escaped(s).last() == '~' <==> s.last() == '~',
{
    let init = s.drop_last();
    assert(s =~= init + seq![s.last()]);
    lemma_escaped_add(init, seq![s.last()]);
    lemma_escaped_one(s.last());
}

/// A text without links and stars comes out as the steps besides make it.
proof fn lemma_calm_alone(s: Seq<char>)
    requires
        is_calm(s, '*'),
        links_converted(escaped(s)) == escaped(s),
    ensures
        converted(s) == marks_resolved(tildes_halved(escaped(s))),
        is_calm(tildes_halved(escaped(s)), '*'),
{
    lemma_escaped_lacks(s, '*');
    lemma_tildes_lacks(escaped(s), '*');
    lemma_stars_same(tildes_halved(escaped(s)));
}

proof fn lemma_one_line_alone(s: Seq<char>)
    requires
        is_one_line(s),
        !opens_fence(s),
    ensures
        fences_stripped(s) == s,
{
    lemma_first_char(s, '\n');
    assert(s.take(s.len() as int) =~= s);
    lemma_no_fence(s, s);
}

/// Nothing comes of nothing.
pub proof fn law_empty_text()
    ensures
        mrkdwn(Seq::<char>::empty()) == Seq::<char>::empty(),
{
    let none = Seq::<char>::empty();
    lemma_one_line_alone(none);
    lemma_links_same(none);
    lemma_stars_same(none);
    assert(mrkdwn(none) =~= none);
}

/// Plain text at the beginning of a text stays as it is, and what becomes of the
/// rest is what becomes of it by itself.
pub proof fn law_plain_beginning(plain: Seq<char>, rest: Seq<char>)
    requires
        is_plain(plain),
        plain.len() > 0 ==> plain.last() != '~' || (rest.len() > 0 ==> rest[0] != '~'),
        is_one_line(plain),
        !opens_fence(plain + rest),
        !opens_fence(rest),
    ensures
        mrkdwn(plain + rest) == plain + mrkdwn(rest),
{
    lemma_fences_before(plain, rest);
    lemma_fences_first(rest);
    lemma_simple_head(plain, fences_stripped(rest));
    lemma_escaped_same(plain);
    lemma_tildes_same(plain);
    lemma_marks_same(plain);
}

/// At the beginning of a text, `&`, `<` and `>` come out as `&amp;`, `&lt;` and
/// `&gt;`, and what becomes of the rest is what becomes of it by itself.
pub proof fn law_control_character_first(rest: Seq<char>)
    requires
        !opens_fence(rest),
    ensures
        mrkdwn(seq!['&'] + rest) == seq!['&', 'a', 'm', 'p', ';'] + mrkdwn(rest),
        mrkdwn(seq!['<'] + rest) == seq!['&', 'l', 't', ';'] + mrkdwn(rest),
        mrkdwn(seq!['>'] + rest) == seq!['&', 'g', 't', ';'] + mrkdwn(rest),
{
    lemma_control_first('&', rest);
    lemma_control_first('<', rest);
    lemma_control_first('>', rest);
}

proof fn lemma_control_first(c: char, rest: Seq<char>)
    requires
        c == '&' || c == '<' || c == '>',
        !opens_fence(rest),
    ensures
        mrkdwn(seq![c] + rest) == entity(c) + mrkdwn(rest),
{
    lemma_fences_before(seq![c], rest);
    lemma_simple_head(seq![c], fences_stripped(rest));
    lemma_escaped_one(c);
    lemma_tildes_same(entity(c));
    lemma_marks_same(entity(c));
}

/// Each byte of these characters as a character of its own.
pub open spec fn bytes_of(s: Seq<char>) -> Seq<char>
    decreases s.len(),
{
    if s.len() == 0 {
        s
    } else {
        text::bytes_as_chars(s[0]) + bytes_of(s.skip(1))
    }
}

proof fn lemma_italic_wide(head: Seq<char>, rest: Seq<char>)
    requires
        forall|i: int| 0 <= i < head.len() ==> head[i] > '\u{7f}',
    ensures
        italic_marked(head + rest) == bytes_of(head) + italic_marked(rest),
        forall|i: int| 0 <= i < bytes_of(head).len() ==> bytes_of(head)[i] > '\u{7f}',
    decreases head.len(),
{
    let all = head + rest;
    if head.len() == 0 {
        assert(all =~= rest);
    } else {
        text::lemma_bytes_as_chars_wide(head[0]);
        assert(all.skip(1) =~= head.skip(1) + rest);
        lemma_italic_wide(head.skip(1), rest);
    }
    assert(italic_marked(all) =~= bytes_of(head) + italic_marked(rest));
}

/// A character at the beginning of a text that is not ASCII comes out as the
/// bytes of its bytes, each as a character, and what becomes of the rest is what
/// becomes of it by itself.
pub proof fn law_wide_character_first(c: char, rest: Seq<char>)
    requires
        c > '\u{7f}',
        !opens_fence(rest),
    ensures
        mrkdwn(seq![c] + rest) == bytes_of(text::bytes_as_chars(c)) + mrkdwn(rest),
{
    let t = fences_stripped(rest);
    let h = seq![c];
    lemma_fences_before(h, rest);
    lemma_escaped_add(h, t);
    lemma_escaped_same(h);
    lemma_links_before(h, escaped(t));
    let l = links_converted(escaped(t));
    lemma_tildes_before(h, l);
    let r = tildes_halved(l);
    assert((h + r).skip(1) =~= r);
    let b = text::bytes_as_chars(c);
    text::lemma_bytes_as_chars_wide(c);
    assert(bold_marked(h + r) == b + bold_marked(r));
    lemma_italic_wide(b, bold_marked(r));
    let marked = italic_marked(bold_marked(r));
    assert(marks_resolved(bytes_of(b) + marked) =~= bytes_of(b) + marks_resolved(marked));
}

/// Two tildes at the beginning of a text come out as one, and a tilde alone
/// stays; what becomes of the rest is what becomes of it by itself.
pub proof fn law_tildes_first(rest: Seq<char>)
    requires
        !opens_fence(rest),
    ensures
        mrkdwn(seq!['~', '~'] + rest) == seq!['~'] + mrkdwn(rest),
        (rest.len() > 0 ==> rest[0] != '~') ==> mrkdwn(seq!['~'] + rest) == seq!['~'] + mrkdwn(
            rest,
        ),
{
    let t = fences_stripped(rest);
    let two = seq!['~', '~'];
    let one = seq!['~'];
    let none = Seq::<char>::empty();
    lemma_fences_before(two, rest);
    lemma_links_between(two, t, none);
    let l = links_converted(escaped(t));
    assert(two + t + none =~= two + t);
    assert(two + l + none =~= two + l);
    assert((two + l).skip(2) =~= l);
    assert(tildes_halved(two + l) =~= one + tildes_halved(l));
    let r = tildes_halved(l);
    lemma_marks_between(one, r, none);
    assert(one + r + none =~= one + r);
    assert(one + converted(t) + none =~= one + converted(t));
    if rest.len() > 0 ==> rest[0] != '~' {
        lemma_fences_before(one, rest);
        lemma_fences_first(rest);
        lemma_simple_head(one, t);
        lemma_escaped_same(one);
        lemma_tildes_same(one);
        lemma_marks_same(one);
    }
}

/// A closed bold span at the beginning of a text comes out between single stars,
/// the text in it as it comes out by itself, and what becomes of the rest is
/// what becomes of it by itself.
pub proof fn law_bold_first(inner: Seq<char>, rest: Seq<char>)
    requires
        vstd::utf8::is_ascii_chars(inner),
        lacks(inner, '*'),
        lacks(inner, '['),
        is_one_line(inner),
        !opens_fence(inner),
        !opens_fence(rest),
    ensures
        mrkdwn(seq!['*', '*'] + inner + seq!['*', '*'] + rest) == seq!['*'] + mrkdwn(inner)
            + seq!['*'] + mrkdwn(rest),
{
    let stars = seq!['*', '*'];
    let head = stars + inner + stars;
    let t = fences_stripped(rest);
    lemma_fences_before(head, rest);
    lemma_one_line_alone(inner);
    lemma_escaped_still_lacks(inner, '[');
    lemma_links_same(escaped(inner));
    lemma_calm_alone(inner);
    let x = tildes_halved(escaped(inner));
    lemma_starred_links(stars, inner, t);
    let l = links_converted(escaped(t));
    lemma_starred_tildes(stars, escaped(inner), l);
    let r = tildes_halved(l);
    lemma_bold_then(x, r);
    let span = seq![BOLD_OPEN] + x + seq![BOLD_CLOSE];
    lemma_stars_before(span, bold_marked(r));
    let marked = italic_marked(bold_marked(r));
    assert(marks_resolved(span + marked) =~= seq!['*'] + marks_resolved(x) + seq!['*']
        + marks_resolved(marked));
}

proof fn lemma_starred_links(stars: Seq<char>, inner: Seq<char>, rest: Seq<char>)
    requires
        forall|i: int| 0 <= i < stars.len() ==> stars[i] == '*',
        lacks(inner, '['),
    ensures
        links_converted(escaped(stars + inner + stars + rest)) == stars + escaped(inner) + stars
            + links_converted(escaped(rest)),
{
    let head = stars + inner + stars;
    lemma_escaped_add(head, rest);
    lemma_escaped_add(stars + inner, stars);
    lemma_escaped_add(stars, inner);
    lemma_escaped_same(stars);
    lemma_escaped_still_lacks(inner, '[');
    lemma_links_before(stars + escaped(inner) + stars, escaped(rest));
}

proof fn lemma_starred_tildes(stars: Seq<char>, inner: Seq<char>, rest: Seq<char>)
    requires
        forall|i: int| 0 <= i < stars.len() ==> stars[i] == '*',
        stars.len() > 0,
    ensures
        tildes_halved(stars + inner + stars + rest) == stars + tildes_halved(inner) + stars
            + tildes_halved(rest),
{
    lemma_tildes_add(stars + inner + stars, rest);
    lemma_tildes_add(stars + inner, stars);
    lemma_tildes_add(stars, inner);
    lemma_tildes_same(stars);
}

proof fn lemma_bold_then(inner: Seq<char>, rest: Seq<char>)
    requires
        lacks(inner, '*'),
    ensures
        bold_marked(seq!['*', '*'] + inner + seq!['*', '*'] + rest) == seq![BOLD_OPEN] + inner
            + seq![BOLD_CLOSE] + bold_marked(rest),
{
    let stars = seq!['*', '*'];
    let md = stars + inner + stars + rest;
    let n = inner.len() as int;
    lemma_first_after(inner, stars, rest);
    assert(md.skip(2) =~= inner + stars + rest);
    assert(md.skip(2).take(n) =~= inner);
    assert(md.skip(n + 4) =~= rest);
}

/// A closed span between single stars at the beginning of a text comes out
/// between underscores, the text in it as it comes out by itself, and what
/// becomes of the rest is what becomes of it by itself.
pub proof fn law_italic_first(inner: Seq<char>, rest: Seq<char>)
    requires
        inner.len() > 0,
        vstd::utf8::is_ascii_chars(inner),
        lacks(inner, '*'),
        lacks(inner, '['),
        is_one_line(inner),
        !opens_fence(inner),
        !opens_fence(rest),
        rest.len() > 0 ==> rest[0] != '*',
    ensures
        mrkdwn(seq!['*'] + inner + seq!['*'] + rest) == seq!['_'] + mrkdwn(inner) + seq!['_']
            + mrkdwn(rest),
{
    let star = seq!['*'];
    let head = star + inner + star;
    let t = fences_stripped(rest);
    lemma_fences_before(head, rest);
    lemma_fences_first(rest);
    lemma_one_line_alone(inner);
    lemma_escaped_still_lacks(inner, '[');
    lemma_links_same(escaped(inner));
    lemma_calm_alone(inner);
    lemma_escaped_lacks(inner, '*');
    lemma_tildes_lacks(escaped(inner), '*');
    let x = tildes_halved(escaped(inner));
    lemma_starred_links(star, inner, t);
    let l = links_converted(escaped(t));
    lemma_starred_tildes(star, escaped(inner), l);
    lemma_first_stays_away(t, '*');
    let r = tildes_halved(l);
    lemma_single_stars_then(x, r);
    lemma_italic_then(x, bold_marked(r));
    let span = seq!['_'] + x + seq!['_'];
    let marked = italic_marked(bold_marked(r));
    assert(marks_resolved(span + marked) =~= seq!['_'] + marks_resolved(x) + seq!['_']
        + marks_resolved(marked));
}

/// A star before something other than a star is no bold mark.
proof fn lemma_star_then(rest: Seq<char>)
    requires
        rest.len() > 0 ==> rest[0] != '*',
    ensures
        bold_marked(seq!['*'] + rest) == seq!['*'] + bold_marked(rest),
{
    let all = seq!['*'] + rest;
    text::lemma_bytes_as_chars_ascii('*');
    assert(all.skip(1) =~= rest);
    if rest.len() > 0 {
        assert(all[1] == rest[0]);
    }
}

proof fn lemma_single_stars_then(inner: Seq<char>, rest: Seq<char>)
    requires
        is_calm(inner, '*'),
        inner.len() > 0,
        rest.len() > 0 ==> rest[0] != '*',
    ensures
        bold_marked(seq!['*'] + inner + seq!['*'] + rest) == seq!['*'] + inner + seq!['*']
            + bold_marked(rest),
{
    let star = seq!['*'];
    let after = inner + (star + rest);
    assert(star + inner + star + rest =~= star + after);
    lemma_star_then(after);
    lemma_stars_before(inner, star + rest);
    lemma_star_then(rest);
    assert(star + (inner + (star + bold_marked(rest))) =~= star + inner + star + bold_marked(rest));
}

proof fn lemma_italic_then(inner: Seq<char>, rest: Seq<char>)
    requires
        lacks(inner, '*'),
        inner.len() > 0,
    ensures
        italic_marked(seq!['*'] + inner + seq!['*'] + rest) == seq!['_'] + inner + seq!['_']
            + italic_marked(rest),
{
    let star = seq!['*'];
    let md = star + inner + star + rest;
    let n = inner.len() as int;
    lemma_first_after(inner, star, rest);
    assert(md.skip(1) =~= inner + star + rest);
    assert(md.skip(1).take(n) =~= inner);
    assert(md.skip(n + 2) =~= rest);
}

proof fn lemma_bold_still_lacks(s: Seq<char>)
    requires
        lacks(s, '*'),
    ensures
        lacks(bold_marked(s), '*'),
    decreases s.len(),
{
    if s.len() > 0 {
        lemma_rest(s);
        assert(lacks(s.skip(1), '*'));
        lemma_bold_still_lacks(s.skip(1));
        if s[0] <= '\u{7f}' {
            text::lemma_bytes_as_chars_ascii(s[0]);
        } else {
            text::lemma_bytes_as_chars_wide(s[0]);
        }
    }
}

/// A star, or two, at the beginning of a text that has no other stays, and what
/// becomes of the rest is what becomes of it by itself.
pub proof fn law_unclosed_stars_first(rest: Seq<char>)
    requires
        lacks(rest, '*'),
        !opens_fence(rest),
    ensures
        mrkdwn(seq!['*'] + rest) == seq!['*'] + mrkdwn(rest),
        mrkdwn(seq!['*', '*'] + rest) == seq!['*', '*'] + mrkdwn(rest),
{
    let one = seq!['*'];
    let two = seq!['*', '*'];
    let t = fences_stripped(rest);
    lemma_fences_before(one, rest);
    lemma_fences_before(two, rest);
    lemma_fences_lacks(rest, '*');
    lemma_escaped_lacks(t, '*');
    lemma_links_lacks(escaped(t), '*');
    let l = links_converted(escaped(t));
    lemma_tildes_lacks(l, '*');
    let r = tildes_halved(l);
    lemma_bold_still_lacks(r);
    let b = bold_marked(r);
    let none = Seq::<char>::empty();
    lemma_links_between(one, t, none);
    lemma_links_between(two, t, none);
    assert(one + t + none =~= one + t && two + t + none =~= two + t);
    assert(one + l + none =~= one + l && two + l + none =~= two + l);
    lemma_tildes_before(one, l);
    lemma_tildes_before(two, l);
    lemma_star_then(r);
    lemma_lone_pair(r);
    lemma_lone_italic(b);
    let marked = italic_marked(b);
    assert(marks_resolved(one + marked) =~= one + marks_resolved(marked));
    assert(marks_resolved(two + marked) =~= two + marks_resolved(marked));
}

proof fn lemma_lone_pair(rest: Seq<char>)
    requires
        lacks(rest, '*'),
    ensures
        bold_marked(seq!['*', '*'] + rest) == seq!['*', '*'] + bold_marked(rest),
{
    let two = seq!['*', '*'];
    let all = two + rest;
    assert(all.skip(2) =~= rest);
    if text::first_occurrence(rest, two) is Some {
        text::lemma_first_is_some(rest, two);
        let k = text::first_occurrence(rest, two)->0;
        assert(rest[k] == rest.subrange(k, k + 2)[0]);
    }
    assert(bold_end(all) is None);
    text::lemma_bytes_as_chars_ascii('*');
    assert(all.skip(1) =~= seq!['*'] + rest);
    lemma_star_then(rest);
    assert(seq!['*'] + (seq!['*'] + bold_marked(rest)) =~= two + bold_marked(rest));
}

#[verifier::spinoff_prover]
#[verifier::rlimit(30)]
proof fn lemma_lone_italic(rest: Seq<char>)
    requires
        lacks(rest, '*'),
    ensures
        italic_marked(seq!['*'] + rest) == seq!['*'] + italic_marked(rest),
        italic_marked(seq!['*', '*'] + rest) == seq!['*', '*'] + italic_marked(rest),
{
    let one = seq!['*'];
    let two = seq!['*', '*'];
    text::lemma_bytes_as_chars_ascii('*');
    assert((one + rest).skip(1) =~= rest);
    lemma_first_char(rest, '*');
    assert(italic_end(one + rest) is None);
    assert((two + rest).skip(1) =~= one + rest);
    lemma_first_after(Seq::empty(), one, rest);
    assert(Seq::<char>::empty() + one + rest =~= one + rest);
    assert(italic_end(two + rest) is None);
    assert((two + rest)[0] == '*' && (one + rest)[0] == '*');
    assert(italic_marked(one + rest) == one + italic_marked(rest));
    assert(italic_marked(two + rest) == one + italic_marked(one + rest));
    assert(one + (one + italic_marked(rest)) =~= two + italic_marked(rest));
}

proof fn lemma_escaped_contains(s: Seq<char>)
    requires
        !text::contains_text(s, seq![']', '(']),
    ensures
        !text::contains_text(escaped(s), seq![']', '(']),
    decreases s.len(),
{
    let middle = seq![']', '('];
    if s.len() == 0 {
        assert(forall|i: int| !text::occurs_at(escaped(s), middle, i));
    } else {
        let t = s.skip(1);
        assert forall|i: int| !text::occurs_at(t, middle, i) by {
            if text::occurs_at(t, middle, i) {
                assert(s.subrange(i + 1, i + 3) =~= t.subrange(i, i + 2));
                assert(text::occurs_at(s, middle, i + 1));
            }
        }
        lemma_escaped_contains(t);
        let e = entity(s[0]);
        let all = e + escaped(t);
        let n = e.len() as int;
        assert forall|i: int| !text::occurs_at(all, middle, i) by {
            if text::occurs_at(all, middle, i) {
                assert(all.subrange(i, i + 2)[0] == all[i] && all.subrange(i, i + 2)[1] == all[i
                    + 1]);
                if i >= n {
                    assert(escaped(t).subrange(i - n, i - n + 2) =~= all.subrange(i, i + 2));
                    assert(text::occurs_at(escaped(t), middle, i - n));
                } else if i + 1 < n {
                    assert(e[i] == ']');
                } else {
                    assert(e[i] == ']');
                    assert(s[0] == ']');
                    assert(escaped(t)[0] == '(');
                    assert(t.len() > 0 && escaped(t)[0] == entity(t[0])[0]);
                    assert(s.subrange(0, 2) =~= middle);
                    assert(text::occurs_at(s, middle, 0));
                }
            }
        }
    }
}

proof fn lemma_links_unclosed(s: Seq<char>)
    requires
        lacks(s, ')'),
    ensures
        links_converted(s) == s,
    decreases s.len(),
{
    lemma_first_char(s, '[');
    if let Some(open) = text::first_occurrence(s, seq!['[']) {
        let after = s.skip(open + 1);
        lemma_no_link_in(after);
        lemma_links_unclosed(after);
        assert(s.take(open).push('[') + after =~= s);
    }
}

proof fn lemma_no_link_in(after: Seq<char>)
    requires
        lacks(after, ')') || lacks(after, ']') || lacks(after, '('),
    ensures
        link_in(after) is None,
{
    let middle = seq![']', '('];
    if let Some(k) = text::first_occurrence(after, middle) {
        text::lemma_first_is_some(after, middle);
        assert(after[k] == after.subrange(k, k + 2)[0]);
        assert(after[k + 1] == after.subrange(k, k + 2)[1]);
        lemma_first_char(after.skip(k + 2), ')');
    }
}

proof fn lemma_source_escaped(label: Seq<char>, url: Seq<char>, rest: Seq<char>)
    ensures
        escaped(link_source(label, url) + rest) == link_source(escaped(label), escaped(url))
            + escaped(rest),
{
    let open = seq!['['];
    let middle = seq![']', '('];
    let close = seq![')'];
    lemma_escaped_add(link_source(label, url), rest);
    lemma_escaped_add(open, label + middle + (url + close));
    lemma_escaped_add(label + middle, url + close);
    lemma_escaped_add(label, middle);
    lemma_escaped_add(url, close);
    lemma_escaped_same(open);
    lemma_escaped_same(middle);
    lemma_escaped_same(close);
}

#[verifier::spinoff_prover]
proof fn lemma_link_then(label: Seq<char>, url: Seq<char>, rest: Seq<char>)
    requires
        !text::contains_text(label, seq![']', '(']),
        lacks(url, ')'),
    ensures
        links_converted(link_source(label, url) + rest) == link(label, url) + links_converted(rest),
{
    let none = Seq::<char>::empty();
    let open = seq!['['];
    let middle = seq![']', '('];
    let close = seq![')'];
    let tail = url + close + rest;
    let after = label + middle + tail;
    let md = link_source(label, url) + rest;
    let n = label.len() as int;
    assert(md =~= none + open + after);
    lemma_first_after(none, open, after);
    assert(md.skip(1) =~= after);
    lemma_label_end(label, tail);
    assert(after.skip(n + 2) =~= tail);
    assert(after.take(n) =~= label);
    lemma_first_after(url, close, rest);
    assert(tail.take(url.len() as int) =~= url);
    assert(link_in(after) == Some((label, url)));
    assert(after.skip((label.len() + url.len() + 3) as int) =~= rest);
    assert(md.take(0) + link(label, url) =~= link(label, url));
}

proof fn lemma_link_tildes(label: Seq<char>, url: Seq<char>)
    ensures
        tildes_halved(link(label, url)) == link(tildes_halved(label), tildes_halved(url)),
{
    lemma_tildes_add(seq!['<'] + url + seq!['|'] + label, seq!['>']);
    lemma_tildes_add(seq!['<'] + url + seq!['|'], label);
    lemma_tildes_add(seq!['<'] + url, seq!['|']);
    lemma_tildes_add(seq!['<'], url);
    lemma_tildes_same(seq!['<']);
    lemma_tildes_same(seq!['|']);
    lemma_tildes_same(seq!['>']);
}

/// A link at the beginning of a text comes out as Slack writes it, label and
/// address as they come out by themselves, and what becomes of the rest is what
/// becomes of it by itself.
pub proof fn law_link_first(label: Seq<char>, url: Seq<char>, rest: Seq<char>)
    requires
        vstd::utf8::is_ascii_chars(label) && vstd::utf8::is_ascii_chars(url),
        lacks(label, '*') && lacks(url, '*'),
        !text::contains_text(label, seq![']', '(']),
        lacks(url, ')'),
        is_one_line(label) && is_one_line(url),
        !opens_fence(label) && !opens_fence(url) && !opens_fence(rest),
    ensures
        mrkdwn(seq!['['] + (label + seq![']', '('] + (url + seq![')'])) + rest) == seq!['<']
            + mrkdwn(url) + seq!['|'] + mrkdwn(label) + seq!['>'] + mrkdwn(rest),
{
    let source = link_source(label, url);
    let t = fences_stripped(rest);
    lemma_link_lacks(label, url, '\n');
    lemma_link_lacks(label, url, '\r');
    lemma_fences_before(source, rest);
    lemma_one_line_alone(label);
    lemma_one_line_alone(url);
    lemma_source_escaped(label, url, t);
    lemma_escaped_contains(label);
    lemma_escaped_still_lacks(url, ')');
    let a = escaped(label);
    let b = escaped(url);
    lemma_link_then(a, b, escaped(t));
    lemma_no_links(a);
    lemma_links_unclosed(b);
    lemma_calm_alone(label);
    lemma_calm_alone(url);
    lemma_escaped_lacks(label, '*');
    lemma_escaped_lacks(url, '*');
    lemma_link_lacks(a, b, '*');
    lemma_link_ascii(a, b);
    lemma_head(link(a, b), links_converted(escaped(t)));
    lemma_link_tildes(a, b);
    lemma_link_marks(tildes_halved(a), tildes_halved(b));
}

proof fn lemma_link_marks(label: Seq<char>, url: Seq<char>)
    ensures
        marks_resolved(link(label, url)) == link(marks_resolved(label), marks_resolved(url)),
{
    assert(marks_resolved(link(label, url)) =~= link(marks_resolved(label), marks_resolved(url)));
}

/// A `[` at the beginning of a text in which nothing makes a link of it stays,
/// and what becomes of the rest is what becomes of it by itself.
pub proof fn law_bracket_first(rest: Seq<char>)
    requires
        lacks(rest, ')') || lacks(rest, ']') || lacks(rest, '('),
        !opens_fence(rest),
    ensures
        mrkdwn(seq!['['] + rest) == seq!['['] + mrkdwn(rest),
{
    let open = seq!['['];
    let t = fences_stripped(rest);
    let none = Seq::<char>::empty();
    lemma_fences_before(open, rest);
    if lacks(rest, ')') {
        lemma_fences_lacks(rest, ')');
        lemma_escaped_still_lacks(t, ')');
    } else if lacks(rest, ']') {
        lemma_fences_lacks(rest, ']');
        lemma_escaped_still_lacks(t, ']');
    } else {
        lemma_fences_lacks(rest, '(');
        lemma_escaped_still_lacks(t, '(');
    }
    lemma_escaped_add(open, t);
    lemma_escaped_same(open);
    let e = escaped(t);
    lemma_no_link_in(e);
    lemma_first_after(none, open, e);
    assert(none + open + e =~= open + e);
    assert((open + e).skip(1) =~= e);
    assert((open + e).take(0).push('[') =~= open);
    let l = links_converted(e);
    lemma_head(open, l);
    lemma_tildes_same(open);
    lemma_marks_same(open);
}

/// A line end at the beginning of a text comes out as a line feed, and what
/// becomes of the rest is what becomes of it by itself.
pub proof fn law_line_end_first(rest: Seq<char>)
    ensures
        mrkdwn(seq!['\n'] + rest) == seq!['\n'] + mrkdwn(rest),
        mrkdwn(seq!['\r', '\n'] + rest) == seq!['\n'] + mrkdwn(rest),
{
    lemma_line_then(Seq::empty(), rest);
    lemma_line_then(seq!['\r'], rest);
    let feed = seq!['\n'];
    assert(Seq::<char>::empty() + feed + rest =~= feed + rest);
    assert(seq!['\r'] + feed + rest =~= seq!['\r', '\n'] + rest);
    assert(bare_fence(without_cr(seq!['\r'])) =~= Seq::<char>::empty());
    assert(Seq::<char>::empty().push('\n') =~= feed);
    lemma_simple_head(feed, fences_stripped(rest));
    lemma_escaped_same(feed);
    lemma_tildes_same(feed);
    lemma_marks_same(feed);
}

proof fn lemma_line_then(line: Seq<char>, rest: Seq<char>)
    requires
        lacks(line, '\n'),
    ensures
        fences_stripped(line + seq!['\n'] + rest) == bare_fence(without_cr(line)).push('\n')
            + fences_stripped(rest),
{
    let s = line + seq!['\n'] + rest;
    lemma_first_after(line, seq!['\n'], rest);
    assert(s.take(line.len() as int) =~= line);
    assert(s.skip(line.len() + 1int) =~= rest);
}

/// A line that opens or closes a code block comes out as three backticks,
/// whatever language it names, and what becomes of the rest is what becomes of
/// it by itself.
#[verifier::spinoff_prover]
#[verifier::rlimit(30)]
pub proof fn law_fence_first(language: Seq<char>, rest: Seq<char>)
    requires
        lacks(language, '\n'),
    ensures
        mrkdwn(seq!['`', '`', '`'] + language + seq!['\n'] + rest) == seq!['`', '`', '`', '\n']
            + mrkdwn(rest),
        mrkdwn(seq!['`', '`', '`'] + language) == seq!['`', '`', '`'],
{
    let line = fence() + language;
    let bare = seq!['`', '`', '`', '\n'];
    law_fence_language_dropped(language, rest);
    assert(fence().push('\n') =~= bare);
    lemma_simple_head(bare, fences_stripped(rest));
    lemma_escaped_same(bare);
    lemma_tildes_same(bare);
    lemma_marks_same(bare);
    lemma_first_char(line, '\n');
    assert(line.take(3) =~= fence());
    if line.len() == 3 {
        assert(line =~= fence());
    }
    assert(fences_stripped(line) == fence());
    let none = Seq::<char>::empty();
    lemma_simple_head(fence(), none);
    assert(fence() + none =~= fence());
    law_empty_text();
    lemma_one_line_alone(none);
    lemma_escaped_same(fence());
    lemma_tildes_same(fence());
    lemma_marks_same(fence());
}

/// Every closed bold span of a text is converted, and the plain text between
/// two of them stays as it is.
pub proof fn law_every_bold_span(first: Seq<char>, between: Seq<char>, second: Seq<char>)
    requires
        is_plain(first) && is_plain(between) && is_plain(second),
        is_one_line(first) && is_one_line(between) && is_one_line(second),
        !opens_fence(first) && !opens_fence(second),
        !opens_fence(between + seq!['*', '*']),
    ensures
        mrkdwn(
            seq!['*', '*'] + first + seq!['*', '*'] + (between + (seq!['*', '*'] + second + seq![
                '*',
                '*',
            ])),
        ) == seq!['*'] + first + seq!['*'] + (between + (seq!['*'] + second + seq!['*'])),
{
    let stars = seq!['*', '*'];
    let none = Seq::<char>::empty();
    let last = stars + second + stars;
    let rest = between + last;
    assert(!opens_fence(rest)) by {
        if opens_fence(rest) {
            let b = between + stars;
            assert(rest[0] == b[0] && rest[1] == b[1]);
            if between.len() >= 1 {
                assert(rest[2] == b[2]);
            }
        }
    }
    law_bold_first(first, rest);
    law_plain_beginning(between, last);
    law_bold_first(second, none);
    assert(last + none =~= last);
    law_empty_text();
    lemma_one_line_alone(first);
    lemma_one_line_alone(second);
    lemma_plain_same(first);
    lemma_plain_same(second);
    assert(seq!['*'] + second + seq!['*'] + none =~= seq!['*'] + second + seq!['*']);
}

proof fn lemma_plain_same(s: Seq<char>)
    requires
        is_plain(s),
    ensures
        converted(s) == s,
{
    lemma_escaped_same(s);
    lemma_links_same(s);
    lemma_tildes_same(s);
    lemma_stars_same(s);
    lemma_marks_same(s);
}

proof fn lemma_free_of_stars(head: Seq<char>, rest: Seq<char>)
    requires
        lacks(head, '*'),
    ensures
        bold_marked(head + rest) == bytes_of(head) + bold_marked(rest),
        italic_marked(head + rest) == bytes_of(head) + italic_marked(rest),
        lacks(bytes_of(head), '*'),
        head.len() > 0 ==> bytes_of(head).len() > 0,
        lacks(head, BOLD_OPEN) ==> lacks(bytes_of(head), BOLD_OPEN),
        lacks(head, BOLD_CLOSE) ==> lacks(bytes_of(head), BOLD_CLOSE),
    decreases head.len(),
{
    let all = head + rest;
    if head.len() == 0 {
        assert(all =~= rest);
    } else {
        lemma_rest(head);
        assert(lacks(head.skip(1), '*'));
        assert(all.skip(1) =~= head.skip(1) + rest);
        assert(all[0] == head[0]);
        lemma_free_of_stars(head.skip(1), rest);
        if head[0] <= '\u{7f}' {
            text::lemma_bytes_as_chars_ascii(head[0]);
        } else {
            text::lemma_bytes_as_chars_wide(head[0]);
            lemma_bytes_not_empty(head[0]);
        }
    }
    assert(bold_marked(all) =~= bytes_of(head) + bold_marked(rest));
    assert(italic_marked(all) =~= bytes_of(head) + italic_marked(rest));
}

proof fn lemma_bytes_not_empty(c: char)
    ensures
        text::bytes_as_chars(c).len() > 0,
{
    text::lemma_byte_len_one(c);
}

/// What a span holds is written out as its bytes, each as a character: in a span
/// between two stars and in one between single stars alike.
#[verifier::spinoff_prover]
#[verifier::rlimit(30)]
pub proof fn law_spans_as_bytes(inner: Seq<char>, rest: Seq<char>)
    requires
        inner.len() > 0,
        lacks(inner, '*') && lacks(inner, '[') && lacks(inner, '~'),
        lacks(inner, '&') && lacks(inner, '<') && lacks(inner, '>'),
        lacks(inner, BOLD_OPEN) && lacks(inner, BOLD_CLOSE),
        is_one_line(inner),
        !opens_fence(rest),
    ensures
        mrkdwn(seq!['*', '*'] + inner + seq!['*', '*'] + rest) == seq!['*'] + bytes_of(inner)
            + seq!['*'] + mrkdwn(rest),
        (rest.len() > 0 ==> rest[0] != '*') ==> mrkdwn(seq!['*'] + inner + seq!['*'] + rest)
            == seq!['_'] + bytes_of(inner) + seq!['_'] + mrkdwn(rest),
{
    let two = seq!['*', '*'];
    let one = seq!['*'];
    let none = Seq::<char>::empty();
    let t = fences_stripped(rest);
    let l = links_converted(escaped(t));
    let r = tildes_halved(l);
    let b = bold_marked(r);
    lemma_escaped_same(inner);
    lemma_tildes_same(inner);
    lemma_free_of_stars(inner, none);

    lemma_fences_before(two + inner + two, rest);
    lemma_starred_links(two, inner, t);
    lemma_starred_tildes(two, inner, l);
    lemma_bold_then(inner, r);
    let open = seq![BOLD_OPEN];
    let close = seq![BOLD_CLOSE];
    lemma_free_of_stars(open, inner + close + b);
    lemma_free_of_stars(inner, close + b);
    lemma_free_of_stars(close, b);
    lemma_bytes_of_one(BOLD_OPEN);
    lemma_bytes_of_one(BOLD_CLOSE);
    let marked = italic_marked(b);
    assert(open + inner + close + b =~= open + (inner + close + b));
    assert(inner + close + b =~= inner + (close + b));
    assert(marks_resolved(open + (bytes_of(inner) + (close + marked))) =~= one + bytes_of(inner)
        + one + marks_resolved(marked));

    if rest.len() > 0 ==> rest[0] != '*' {
        lemma_fences_before(one + inner + one, rest);
        lemma_fences_first(rest);
        lemma_starred_links(one, inner, t);
        lemma_starred_tildes(one, inner, l);
        lemma_first_stays_away(t, '*');
        let after = inner + (one + r);
        assert(one + inner + one + r =~= one + after);
        lemma_star_then(after);
        lemma_free_of_stars(inner, one + r);
        lemma_star_then(r);
        let x = bytes_of(inner);
        assert(one + (x + (one + b)) =~= one + x + one + b);
        lemma_italic_then(x, b);
        let under = seq!['_'];
        assert(marks_resolved(under + x + under + marked) =~= under + x + under + marks_resolved(
            marked,
        ));
    }
}

proof fn lemma_bytes_of_one(c: char)
    requires
        c <= '\u{7f}',
    ensures
        bytes_of(seq![c]) == seq![c],
{
    let none = Seq::<char>::empty();
    text::lemma_bytes_as_chars_ascii(c);
    assert(seq![c].skip(1) =~= none);
    assert(bytes_of(none) =~= none);
    assert(seq![c] + none =~= seq![c]);
}

/// A carriage return at the beginning of a text that no line feed follows stays,
/// and what becomes of the rest is what becomes of it by itself.
pub proof fn law_lone_return_first(rest: Seq<char>)
    requires
        rest.len() > 0 ==> rest[0] != '\n',
        !opens_fence(rest),
    ensures
        mrkdwn(seq!['\r'] + rest) == seq!['\r'] + mrkdwn(rest),
{
    let cr = seq!['\r'];
    let none = Seq::<char>::empty();
    let all = cr + rest;
    assert(cr + rest + none =~= all);
    lemma_first_between(cr, rest, none, seq!['\n']);
    lemma_first_char(rest, '\n');
    assert(all.take(all.len() as int) =~= all && rest.take(rest.len() as int) =~= rest);
    match text::first_occurrence(rest, seq!['\n']) {
        Some(k) => {
            let line = without_cr(rest.take(k));
            assert(all.take(k + 1) =~= cr + rest.take(k));
            assert(without_cr(all.take(k + 1)) =~= cr + line);
            assert(all.skip(k + 2) =~= rest.skip(k + 1));
            assert(rest.take(line.len() as int) =~= line);
            assert(all.take((cr + line).len() as int) =~= cr + line);
            lemma_no_fence(line, rest);
            lemma_no_fence(cr + line, all);
            assert(fences_stripped(all) =~= cr + fences_stripped(rest));
        },
        None => {
            lemma_no_fence(all, all);
            lemma_no_fence(rest, rest);
        },
    }
    lemma_simple_head(cr, fences_stripped(rest));
    lemma_escaped_same(cr);
    lemma_tildes_same(cr);
    lemma_marks_same(cr);
}

// ---------------------------------------------------------------------------
// What each step does, piece by piece from the beginning
// ---------------------------------------------------------------------------

proof fn lemma_pair_at_end(inner: Seq<char>, rest: Seq<char>)
    requires
        !text::contains_text(inner.push('*'), seq!['*', '*']),
    ensures
        text::first_occurrence(inner + seq!['*', '*'] + rest, seq!['*', '*']) == Some(
            inner.len() as int,
        ),
{
    let pat = seq!['*', '*'];
    let all = inner + pat + rest;
    let n = inner.len() as int;
    assert(all.subrange(n, n + 2) =~= pat);
    assert(text::occurs_at(all, pat, n));
    assert forall|j: int| 0 <= j < n implies !text::occurs_at(all, pat, j) by {
        if text::occurs_at(all, pat, j) {
            assert(inner.push('*').subrange(j, j + 2) =~= all.subrange(j, j + 2));
            assert(text::occurs_at(inner.push('*'), pat, j));
        }
    }
    text::lemma_first_is(all, pat, n);
}

/// Two stars, a text in which no two follow each other, and two stars again
/// become the text between bold marks. Any other character becomes its bytes:
/// one that is no star, one star alone, and two stars that no other two follow.
/// What becomes of the rest is what becomes of it by itself.
pub proof fn law_bold_step(inner: Seq<char>, c: char, rest: Seq<char>)
    ensures
        bold_marked(Seq::<char>::empty()) == Seq::<char>::empty(),
        !text::contains_text(inner.push('*'), seq!['*', '*']) ==> bold_marked(
            seq!['*', '*'] + inner + seq!['*', '*'] + rest,
        ) == seq!['\u{1}'] + inner + seq!['\u{2}'] + bold_marked(rest),
        c != '*' || rest.len() == 0 || rest[0] != '*' || !text::contains_text(
            rest.skip(1),
            seq!['*', '*'],
        ) ==> bold_marked(seq![c] + rest) == text::bytes_as_chars(c) + bold_marked(rest),
{
    let pat = seq!['*', '*'];
    if !text::contains_text(inner.push('*'), pat) {
        let all = pat + inner + pat + rest;
        let n = inner.len() as int;
        assert(all.skip(2) =~= inner + pat + rest);
        lemma_pair_at_end(inner, rest);
        assert(all.skip(2).take(n) =~= inner);
        assert(all.skip(n + 4) =~= rest);
    }
    let all = seq![c] + rest;
    assert(all.skip(1) =~= rest);
    if c != '*' || rest.len() == 0 || rest[0] != '*' || !text::contains_text(rest.skip(1), pat) {
        if all.len() >= 2 {
            assert(all.skip(2) =~= rest.skip(1));
        }
        if let Some(n) = bold_end(all) {
            text::lemma_first_is_some(all.skip(2), pat);
            assert(text::occurs_at(rest.skip(1), pat, n));
        }
    }
}

/// A star, a text that is not empty and has no star, and a star again become the
/// text between underscores. Any other character becomes its bytes: one that is
/// no star, a star that another follows, and a star that is the last. What
/// becomes of the rest is what becomes of it by itself.
pub proof fn law_italic_step(inner: Seq<char>, c: char, rest: Seq<char>)
    ensures
        italic_marked(Seq::<char>::empty()) == Seq::<char>::empty(),
        inner.len() > 0 && lacks(inner, '*') ==> italic_marked(
            seq!['*'] + inner + seq!['*'] + rest,
        ) == seq!['_'] + inner + seq!['_'] + italic_marked(rest),
        c != '*' || lacks(rest, '*') || rest[0] == '*' ==> italic_marked(seq![c] + rest)
            == text::bytes_as_chars(c) + italic_marked(rest),
{
    let pat = seq!['*'];
    if inner.len() > 0 && lacks(inner, '*') {
        let all = pat + inner + pat + rest;
        let n = inner.len() as int;
        let behind = all.skip(1);
        assert(behind =~= inner + pat + rest);
        assert(behind.subrange(n, n + 1) =~= pat);
        assert forall|j: int| 0 <= j < n implies !text::occurs_at(behind, pat, j) by {
            if text::occurs_at(behind, pat, j) {
                assert(behind.subrange(j, j + 1)[0] == inner[j]);
            }
        }
        text::lemma_first_is(behind, pat, n);
        assert(behind.take(n) =~= inner);
        assert(all.skip(n + 2) =~= rest);
    }
    let all = seq![c] + rest;
    assert(all.skip(1) =~= rest);
    if c != '*' || lacks(rest, '*') || rest[0] == '*' {
        if let Some(n) = italic_end(all) {
            text::lemma_first_is_some(rest, pat);
            assert(rest.subrange(n, n + 1)[0] == rest[n]);
            if rest.len() > 0 && rest[0] == '*' {
                assert(rest.subrange(0, 1) =~= pat);
                assert(text::occurs_at(rest, pat, 0));
            }
        }
    }
}

/// Two tildes become one, and every other character stays. What becomes of the
/// rest is what becomes of it by itself.
pub proof fn law_tilde_step(c: char, rest: Seq<char>)
    ensures
        tildes_halved(Seq::<char>::empty()) == Seq::<char>::empty(),
        tildes_halved(seq!['~', '~'] + rest) == seq!['~'] + tildes_halved(rest),
        c != '~' || rest.len() == 0 || rest[0] != '~' ==> tildes_halved(seq![c] + rest) == seq![c]
            + tildes_halved(rest),
{
    assert((seq!['~', '~'] + rest).skip(2) =~= rest);
    assert((seq![c] + rest).skip(1) =~= rest);
}

/// `&`, `<` and `>` become entities, and every other character stays. What
/// becomes of the rest is what becomes of it by itself.
pub proof fn law_entity_step(c: char, rest: Seq<char>)
    ensures
        escaped(Seq::<char>::empty()) == Seq::<char>::empty(),
        escaped(seq!['&'] + rest) == seq!['&', 'a', 'm', 'p', ';'] + escaped(rest),
        escaped(seq!['<'] + rest) == seq!['&', 'l', 't', ';'] + escaped(rest),
        escaped(seq!['>'] + rest) == seq!['&', 'g', 't', ';'] + escaped(rest),
        c != '&' && c != '<' && c != '>' ==> escaped(seq![c] + rest) == seq![c] + escaped(rest),
{
    assert((seq!['&'] + rest).skip(1) =~= rest);
    assert((seq!['<'] + rest).skip(1) =~= rest);
    assert((seq!['>'] + rest).skip(1) =~= rest);
    assert((seq![c] + rest).skip(1) =~= rest);
}

/// What follows the `[` of a link, and the text behind the link.
pub open spec fn link_tail(label: Seq<char>, url: Seq<char>, behind: Seq<char>) -> Seq<char> {
    label + seq![']', '('] + url + seq![')'] + behind
}

/// A link, whose label ends at the first `](` and whose address ends at the
/// first `)` behind that, becomes a link as Slack writes it. Any other character
/// stays: one that is no `[`, and a `[` that no link follows. What becomes of the
/// rest is what becomes of it by itself.
pub proof fn law_link_step(label: Seq<char>, url: Seq<char>, c: char, rest: Seq<char>)
    ensures
        links_converted(Seq::<char>::empty()) == Seq::<char>::empty(),
        !text::contains_text(label, seq![']', '(']) && lacks(url, ')') ==> links_converted(
            seq!['['] + label + seq![']', '('] + url + seq![')'] + rest,
        ) == seq!['<'] + url + seq!['|'] + label + seq!['>'] + links_converted(rest),
        c != '[' || (forall|l: Seq<char>, u: Seq<char>, t: Seq<char>|
            rest != #[trigger] link_tail(l, u, t)) ==> links_converted(
            seq![c] + rest,
        ) == seq![c] + links_converted(rest),
{
    let open = seq!['['];
    let mid = seq![']', '('];
    let close = seq![')'];
    assert(text::first_occurrence(Seq::<char>::empty(), open) is None) by {
        if text::first_occurrence(Seq::<char>::empty(), open) is Some {
            text::lemma_first_is_some(Seq::<char>::empty(), open);
        }
    }
    if !text::contains_text(label, mid) && lacks(url, ')') {
        let all = open + label + mid + url + close + rest;
        let after = label + mid + url + close + rest;
        let n = label.len() as int;
        let m = url.len() as int;
        assert(all.subrange(0, 1) =~= open);
        text::lemma_first_is(all, open, 0);
        assert(all.skip(1) =~= after);
        assert(after.subrange(n, n + 2) =~= mid);
        assert forall|j: int| 0 <= j < n implies !text::occurs_at(after, mid, j) by {
            if text::occurs_at(after, mid, j) {
                assert(after.subrange(j, j + 2)[1] == after[j + 1]);
                assert(j + 1 < n);
                assert(label.subrange(j, j + 2) =~= after.subrange(j, j + 2));
                assert(text::occurs_at(label, mid, j));
            }
        }
        text::lemma_first_is(after, mid, n);
        let behind = after.skip(n + 2);
        assert(behind =~= url + close + rest);
        assert(behind.subrange(m, m + 1) =~= close);
        assert forall|j: int| 0 <= j < m implies !text::occurs_at(behind, close, j) by {
            if text::occurs_at(behind, close, j) {
                assert(behind.subrange(j, j + 1)[0] == url[j]);
            }
        }
        text::lemma_first_is(behind, close, m);
        assert(after.take(n) =~= label);
        assert(behind.take(m) =~= url);
        assert(after.skip(n + m + 3) =~= rest);
        assert(all.take(0) =~= Seq::<char>::empty());
        assert(links_converted(all) =~= open.take(0) + link(label, url) + links_converted(rest));
    }
    let all = seq![c] + rest;
    assert(all.skip(1) =~= rest);
    if c == '[' {
        assert(all.subrange(0, 1) =~= open);
        text::lemma_first_is(all, open, 0);
        assert(all.take(0).push('[') =~= seq![c]);
        if let Some((l, u)) = link_in(rest) {
            text::lemma_first_is_some(rest, mid);
            let n = l.len() as int;
            let behind = rest.skip(n + 2);
            text::lemma_first_is_some(behind, close);
            let m = u.len() as int;
            let t = behind.skip(m + 1);
            assert(rest.subrange(n, n + 2) == mid);
            assert(behind.subrange(m, m + 1) == close);
            assert(behind =~= u + close + t) by {
                assert(behind.subrange(m, m + 1)[0] == behind[m]);
            }
            assert(rest =~= l + mid + behind) by {
                assert(rest.subrange(n, n + 2)[0] == rest[n]);
                assert(rest.subrange(n, n + 2)[1] == rest[n + 1]);
            }
            assert(rest =~= link_tail(l, u, t));
        }
    } else {
        lemma_links_skip_one(c, rest);
    }
}

proof fn lemma_links_skip_one(c: char, rest: Seq<char>)
    requires
        c != '[',
    ensures
        links_converted(seq![c] + rest) == seq![c] + links_converted(rest),
{
    let open = seq!['['];
    let all = seq![c] + rest;
    match text::first_occurrence(rest, open) {
        Some(k) => {
            text::lemma_first_is_some(rest, open);
            assert(all.subrange(k + 1, k + 2) =~= rest.subrange(k, k + 1));
            assert forall|j: int| 0 <= j < k + 1 implies !text::occurs_at(all, open, j) by {
                if text::occurs_at(all, open, j) {
                    assert(all.subrange(j, j + 1)[0] == all[j]);
                    assert(j > 0);
                    assert(rest.subrange(j - 1, j) =~= all.subrange(j, j + 1));
                    assert(text::occurs_at(rest, open, j - 1));
                }
            }
            text::lemma_first_is(all, open, k + 1);
            assert(all.skip(k + 2) =~= rest.skip(k + 1));
            assert(all.take(k + 1) =~= seq![c] + rest.take(k));
            assert(links_converted(all) =~= seq![c] + links_converted(rest));
        },
        None => {
            if let Some(k) = text::first_occurrence(all, open) {
                text::lemma_first_is_some(all, open);
                assert(all.subrange(k, k + 1)[0] == all[k]);
                assert(k > 0);
                text::law_first_occurrence(rest, open);
                assert(rest.subrange(k - 1, k - 1 + open.len()) =~= all.subrange(k, k + 1));
            }
        },
    }
}

/// A line that begins with three backticks becomes these alone, any other stays,
/// but that a carriage return before the line feed goes; the last line, which no
/// line feed ends, keeps it. What becomes of the rest is what becomes of it by
/// itself.
pub proof fn law_fence_step(line: Seq<char>, rest: Seq<char>)
    requires
        lacks(line, '\n'),
    ensures
        fences_stripped(line) == if opens_fence(line) {
            seq!['`', '`', '`']
        } else {
            line
        },
        line.len() == 0 || line.last() != '\r' ==> fences_stripped(line + seq!['\n'] + rest)
            == fences_stripped(line) + seq!['\n'] + fences_stripped(rest),
        fences_stripped(line + seq!['\r', '\n'] + rest) == fences_stripped(line) + seq!['\n']
            + fences_stripped(rest),
{
    lemma_last_line(line);
    lemma_line_off(line, rest);
    let ended = line.push('\r');
    lemma_line_off(ended, rest);
    assert(ended + seq!['\n'] + rest =~= line + seq!['\r', '\n'] + rest);
    assert(ended.drop_last() =~= line);
}

proof fn lemma_last_line(line: Seq<char>)
    requires
        lacks(line, '\n'),
    ensures
        fences_stripped(line) == bare_fence(line),
        bare_fence(line) == if opens_fence(line) {
            seq!['`', '`', '`']
        } else {
            line
        },
{
    if let Some(k) = text::first_occurrence(line, seq!['\n']) {
        text::lemma_first_is_some(line, seq!['\n']);
        assert(line.subrange(k, k + 1)[0] == line[k]);
    }
    if opens_fence(line) {
        assert(line.take(3) =~= fence());
        if line.len() == 3 {
            assert(line =~= fence());
        }
    } else if line.len() > 3 && line.take(3) == fence() {
        assert(line.take(3)[0] == line[0] && line.take(3)[1] == line[1] && line.take(3)[2]
            == line[2]);
    }
}

proof fn lemma_line_off(line: Seq<char>, rest: Seq<char>)
    requires
        lacks(line, '\n'),
    ensures
        fences_stripped(line + seq!['\n'] + rest) == bare_fence(without_cr(line)) + seq!['\n']
            + fences_stripped(rest),
{
    let pat = seq!['\n'];
    let all = line + pat + rest;
    let n = line.len() as int;
    assert(all.subrange(n, n + 1) =~= pat);
    assert forall|j: int| 0 <= j < n implies !text::occurs_at(all, pat, j) by {
        if text::occurs_at(all, pat, j) {
            assert(all.subrange(j, j + 1)[0] == line[j]);
        }
    }
    text::lemma_first_is(all, pat, n);
    assert(all.take(n) =~= line);
    assert(all.skip(n + 1) =~= rest);
    assert(bare_fence(without_cr(line)).push('\n') =~= bare_fence(without_cr(line)) + pat);
}

/// The steps, in their order: fences, entities, links, tildes, bold, italics, and
/// last the two bold marks, each of which becomes a star.
pub proof fn law_steps_in_order(md: Seq<char>, i: int)
    ensures
        ({
            let links = links_converted(escaped(fences_stripped(md)));
            let marked = italic_marked(bold_marked(tildes_halved(links)));
            &&& mrkdwn(md).len() == marked.len()
            &&& 0 <= i < marked.len() ==> mrkdwn(md)[i] == if marked[i] == '\u{1}' || marked[i]
                == '\u{2}' {
                '*'
            } else {
                marked[i]
            }
        }),
{
}

} // verus!
