//! Strings as sequences of characters: conversions, searching, trimming and byte lengths.

use vstd::prelude::*;
use vstd::utf8;

verus! {

/// `String::push` puts one character behind those that the string holds.
pub assume_specification[ String::push ](s: &mut String, c: char)
    ensures
        final(s)@ == old(s)@.push(c),
;

// ---------------------------------------------------------------------------
// Byte lengths
// ---------------------------------------------------------------------------

/// How many bytes `s` takes in UTF-8.
pub open spec fn byte_len(s: Seq<char>) -> nat {
    utf8::encode_utf8(s).len()
}

/// How many bytes one character takes in UTF-8.
pub open spec fn char_width(c: char) -> nat {
    utf8::encode_scalar(c as u32).len()
}

/// The bytes of a character's UTF-8 form, each read as a character of its own.
pub open spec fn bytes_as_chars(c: char) -> Seq<char> {
    utf8::encode_scalar(c as u32).map_values(|b: u8| b as char)
}

/// Byte lengths add up.
pub proof fn lemma_byte_len_add(a: Seq<char>, b: Seq<char>)
    ensures
        byte_len(a + b) == byte_len(a) + byte_len(b),
    decreases a.len(),
{
    if a.len() == 0 {
        assert(a + b == b);
    } else {
        assert((a + b).drop_first() == a.drop_first() + b);
        lemma_byte_len_add(a.drop_first(), b);
    }
}

/// A character takes one to four bytes.
pub proof fn lemma_byte_len_one(c: char)
    ensures
        byte_len(seq![c]) == char_width(c),
        1 <= char_width(c) <= 4,
{
    assert(seq![c].drop_first() == Seq::<char>::empty());
    assert(utf8::encode_utf8(Seq::<char>::empty()).len() == 0);
}

/// Every character takes a byte at least.
pub proof fn lemma_byte_len_at_least(s: Seq<char>)
    ensures
        byte_len(s) >= s.len(),
    decreases s.len(),
{
    if s.len() > 0 {
        lemma_byte_len_at_least(s.drop_first());
        lemma_byte_len_one(s[0]);
    }
}

/// The byte length of a longer prefix is larger.
pub proof fn lemma_byte_len_take(s: Seq<char>, i: int, j: int)
    requires
        0 <= i <= j <= s.len(),
    ensures
        byte_len(s.take(j)) == byte_len(s.take(i)) + byte_len(s.subrange(i, j)),
        byte_len(s.take(j)) >= byte_len(s.take(i)) + (j - i),
{
    assert(s.take(j) == s.take(i) + s.subrange(i, j));
    lemma_byte_len_add(s.take(i), s.subrange(i, j));
    lemma_byte_len_at_least(s.subrange(i, j));
}

/// How many bytes `c` takes in UTF-8.
pub fn width_of(c: char) -> (r: usize)
    ensures
        r == char_width(c),
        1 <= r <= 4,
{
    proof {
        utf8::char_is_scalar(c);
        lemma_byte_len_one(c);
    }
    let u: u32 = c as u32;
    if u <= 0x7F {
        1
    } else if u <= 0x7FF {
        2
    } else if u <= 0xFFFF {
        3
    } else {
        4
    }
}

/// Puts the UTF-8 bytes of `c`, each as a character of its own, behind `out`.
pub fn push_bytes_as_chars(out: &mut Vec<char>, c: char)
    ensures
        final(out)@ == old(out)@ + bytes_as_chars(c),
{
    proof {
        utf8::char_is_scalar(c);
    }
    let u: u32 = c as u32;
    let ghost enc = utf8::encode_scalar(u);
    if u <= 0x7F {
        out.push(((u & 0x7F) as u8) as char);
    } else if u <= 0x7FF {
        out.push((0xC0u8 | (((u >> 6) & 0x1F) as u8)) as char);
        out.push((0x80u8 | ((u & 0x3F) as u8)) as char);
    } else if u <= 0xFFFF {
        out.push((0xE0u8 | (((u >> 12) & 0x0F) as u8)) as char);
        out.push((0x80u8 | (((u >> 6) & 0x3F) as u8)) as char);
        out.push((0x80u8 | ((u & 0x3F) as u8)) as char);
    } else {
        out.push((0xF0u8 | (((u >> 18) & 0x7) as u8)) as char);
        out.push((0x80u8 | (((u >> 12) & 0x3F) as u8)) as char);
        out.push((0x80u8 | (((u >> 6) & 0x3F) as u8)) as char);
        out.push((0x80u8 | ((u & 0x3F) as u8)) as char);
    }
    assert(out@ =~= old(out)@ + bytes_as_chars(c));
}

/// An ASCII character is its own byte.
pub proof fn lemma_bytes_as_chars_ascii(c: char)
    requires
        c <= '\u{7f}',
    ensures
        bytes_as_chars(c) == seq![c],
{
    let u = c as u32;
    assert((u & 0x7F) as u8 == u as u8) by (bit_vector)
        requires
            u <= 0x7F,
    ;
    assert(bytes_as_chars(c) =~= seq![c]);
}

/// The bytes of a character that is not ASCII are not ASCII either.
pub proof fn lemma_bytes_as_chars_wide(c: char)
    requires
        c > '\u{7f}',
    ensures
        forall|i: int| 0 <= i < bytes_as_chars(c).len() ==> bytes_as_chars(c)[i] > '\u{7f}',
{
    let u = c as u32;
    assert(forall|x: u8| #[trigger] (0x80u8 | x) >= 0x80u8) by (bit_vector);
    assert(forall|x: u8| #[trigger] (0xC0u8 | x) >= 0x80u8) by (bit_vector);
    assert(forall|x: u8| #[trigger] (0xE0u8 | x) >= 0x80u8) by (bit_vector);
    assert(forall|x: u8| #[trigger] (0xF0u8 | x) >= 0x80u8) by (bit_vector);
}

// ---------------------------------------------------------------------------
// Conversions
// ---------------------------------------------------------------------------

/// The characters of `s`, in order.
pub fn chars_of(s: &str) -> (r: Vec<char>)
    ensures
        r@ == s@,
{
    let mut v: Vec<char> = Vec::new();
    for c in it: s.chars()
        invariant
            it.seq() == s@,
            v@ == s@.take(it.index()),
    {
        v.push(c);
    }
    proof {
        assert(s@.take(s@.len() as int) == s@);
    }
    v
}

/// The string whose characters are those of `v` from `from` up to `to`.
pub fn string_of(v: &Vec<char>, from: usize, to: usize) -> (r: String)
    requires
        from <= to <= v@.len(),
    ensures
        r@ == v@.subrange(from as int, to as int),
{
    let mut s = String::new();
    let mut i: usize = from;
    while i < to
        invariant
            from <= i <= to <= v@.len(),
            s@ == v@.subrange(from as int, i as int),
        decreases to - i,
    {
        s.push(v[i]);
        i = i + 1;
    }
    s
}

/// The string whose characters are those of `v`.
pub fn whole_string(v: &Vec<char>) -> (r: String)
    ensures
        r@ == v@,
{
    let n: usize = v.len();
    proof {
        assert(v@.subrange(0, n as int) == v@);
    }
    string_of(v, 0, n)
}

/// Puts the characters of `v` from `from` up to `to` behind `out`.
pub fn push_range(out: &mut Vec<char>, v: &Vec<char>, from: usize, to: usize)
    requires
        from <= to <= v@.len(),
    ensures
        final(out)@ == old(out)@ + v@.subrange(from as int, to as int),
{
    let mut i: usize = from;
    while i < to
        invariant
            from <= i <= to <= v@.len(),
            out@ == old(out)@ + v@.subrange(from as int, i as int),
        decreases to - i,
    {
        out.push(v[i]);
        i = i + 1;
    }
}

/// Puts the characters of `s` behind `out`.
pub fn push_text(out: &mut Vec<char>, s: &str)
    ensures
        final(out)@ == old(out)@ + s@,
{
    let v = chars_of(s);
    let n: usize = v.len();
    push_range(out, &v, 0, n);
    proof {
        assert(v@.subrange(0, n as int) == s@);
    }
}

/// One text behind another.
pub fn joined(a: &str, b: &str) -> (r: String)
    ensures
        r@ == a@ + b@,
{
    let mut out = chars_of(a);
    push_text(&mut out, b);
    whole_string(&out)
}

/// The characters of a text that may be missing.
pub open spec fn opt_view(s: Option<String>) -> Option<Seq<char>> {
    match s {
        Some(t) => Some(t@),
        None => None,
    }
}

/// A copy of a text that may be missing.
pub fn opt_clone(s: &Option<String>) -> (r: Option<String>)
    ensures
        opt_view(r) == opt_view(*s),
{
    match s {
        Some(t) => Some(t.clone()),
        None => None,
    }
}

/// Whether two strings hold the same characters.
pub fn same_text(a: &str, b: &str) -> (r: bool)
    ensures
        r == (a@ == b@),
{
    a.to_owned() == b.to_owned()
}

// ---------------------------------------------------------------------------
// Searching
// ---------------------------------------------------------------------------

/// Whether `pat` stands in `s` at position `i`.
pub open spec fn occurs_at(s: Seq<char>, pat: Seq<char>, i: int) -> bool {
    0 <= i && i + pat.len() <= s.len() && s.subrange(i, i + pat.len()) == pat
}

/// Whether `i` is the first position of `s` at which `pat` stands.
pub open spec fn is_first_occurrence(s: Seq<char>, pat: Seq<char>, i: int) -> bool {
    occurs_at(s, pat, i) && forall|j: int| 0 <= j < i ==> !occurs_at(s, pat, j)
}

/// The first position of `s` at which `pat` stands, if there is one.
pub open spec fn first_occurrence(s: Seq<char>, pat: Seq<char>) -> Option<int> {
    if exists|i: int| is_first_occurrence(s, pat, i) {
        Some(choose|i: int| is_first_occurrence(s, pat, i))
    } else {
        None
    }
}

/// Whether `pat` stands anywhere in `s`.
pub open spec fn contains_text(s: Seq<char>, pat: Seq<char>) -> bool {
    exists|i: int| occurs_at(s, pat, i)
}

/// There is only one first position.
pub proof fn lemma_first_is(s: Seq<char>, pat: Seq<char>, i: int)
    requires
        is_first_occurrence(s, pat, i),
    ensures
        first_occurrence(s, pat) == Some(i),
{
    let k = first_occurrence(s, pat)->0;
    assert(is_first_occurrence(s, pat, k));
    if k < i {
        assert(!occurs_at(s, pat, k));
    } else if i < k {
        assert(!occurs_at(s, pat, i));
    }
}

/// The first position, where there is one, is first.
pub proof fn lemma_first_is_some(s: Seq<char>, pat: Seq<char>)
    requires
        first_occurrence(s, pat) is Some,
    ensures
        is_first_occurrence(s, pat, first_occurrence(s, pat)->0),
{
}

/// Looks for `pat` in `v` from position `from` on.
pub fn find_from(v: &Vec<char>, from: usize, pat: &Vec<char>) -> (r: Option<usize>)
    requires
        from <= v@.len(),
    ensures
        match r {
            Some(i) => {
                &&& from <= i
                &&& i + pat@.len() <= v@.len()
                &&& first_occurrence(v@.skip(from as int), pat@) == Some(i - from)
                &&& occurs_at(v@.skip(from as int), pat@, i - from)
            },
            None => first_occurrence(v@.skip(from as int), pat@) is None,
        },
{
    let ghost s = v@.skip(from as int);
    let n: usize = v.len();
    let m: usize = pat.len();
    let mut i: usize = from;
    while i <= n && n - i >= m
        invariant
            n == v@.len(),
            from <= i <= n + 1,
            m == pat@.len(),
            s == v@.skip(from as int),
            forall|j: int| 0 <= j < i - from ==> !occurs_at(s, pat@, j),
        decreases n + 1 - i,
    {
        let mut k: usize = 0;
        while k < m && v[i + k] == pat[k]
            invariant
                k <= m,
                m == pat@.len(),
                n == v@.len(),
                i + m <= n,
                forall|j: int| 0 <= j < k ==> v@[i + j] == pat@[j],
            decreases m - k,
        {
            k = k + 1;
        }
        if k == m {
            proof {
                assert(s.subrange(i - from, i - from + m) =~= pat@);
                lemma_first_is(s, pat@, i - from);
            }
            return Some(i);
        }
        proof {
            if occurs_at(s, pat@, i - from) {
                assert(s.subrange(i - from, i - from + m)[k as int] == pat@[k as int]);
                assert(false);
            }
        }
        i = i + 1;
    }
    proof {
        if first_occurrence(s, pat@) is Some {
            lemma_first_is_some(s, pat@);
            let k = first_occurrence(s, pat@)->0;
            assert(!occurs_at(s, pat@, k));
        }
    }
    None
}

/// Whether `pat` stands anywhere in `s`.
pub fn has_text(s: &str, pat: &str) -> (r: bool)
    ensures
        r == contains_text(s@, pat@),
{
    let v = chars_of(s);
    let p = chars_of(pat);
    let r = find_from(&v, 0, &p);
    proof {
        assert(v@.skip(0) == s@);
        if contains_text(s@, pat@) {
            lemma_some_occurrence(s@, pat@);
        }
    }
    r.is_some()
}

/// Where a pattern stands at all, it stands somewhere first.
pub proof fn lemma_some_occurrence(s: Seq<char>, pat: Seq<char>)
    requires
        contains_text(s, pat),
    ensures
        first_occurrence(s, pat) is Some,
{
    let i = choose|i: int| occurs_at(s, pat, i);
    lemma_least_occurrence(s, pat, i);
}

proof fn lemma_least_occurrence(s: Seq<char>, pat: Seq<char>, i: int)
    requires
        occurs_at(s, pat, i),
    ensures
        first_occurrence(s, pat) is Some,
    decreases i,
{
    if forall|j: int| 0 <= j < i ==> !occurs_at(s, pat, j) {
        lemma_first_is(s, pat, i);
    } else {
        let j = choose|j: int| 0 <= j < i && occurs_at(s, pat, j);
        lemma_least_occurrence(s, pat, j);
    }
}

// ---------------------------------------------------------------------------
// White space
// ---------------------------------------------------------------------------

/// The characters with the Unicode property `White_Space`.
pub open spec fn is_space(c: char) -> bool {
    ||| '\u{9}' <= c <= '\u{d}'
    ||| c == ' '
    ||| c == '\u{85}'
    ||| c == '\u{a0}'
    ||| c == '\u{1680}'
    ||| '\u{2000}' <= c <= '\u{200a}'
    ||| c == '\u{2028}'
    ||| c == '\u{2029}'
    ||| c == '\u{202f}'
    ||| c == '\u{205f}'
    ||| c == '\u{3000}'
}

/// Whether `c` has the Unicode property `White_Space`.
pub fn is_white_space(c: char) -> (r: bool)
    ensures
        r == is_space(c),
{
    ('\u{9}' <= c && c <= '\u{d}') || c == ' ' || c == '\u{85}' || c == '\u{a0}' || c == '\u{1680}'
        || ('\u{2000}' <= c && c <= '\u{200a}') || c == '\u{2028}' || c == '\u{2029}' || c
        == '\u{202f}' || c == '\u{205f}' || c == '\u{3000}'
}

/// `s` without the white space that it ends in.
pub open spec fn trim_end(s: Seq<char>) -> Seq<char>
    decreases s.len(),
{
    if s.len() > 0 && is_space(s.last()) {
        trim_end(s.drop_last())
    } else {
        s
    }
}

/// `s` without the white space that it begins with.
pub open spec fn trim_start(s: Seq<char>) -> Seq<char>
    decreases s.len(),
{
    if s.len() > 0 && is_space(s[0]) {
        trim_start(s.drop_first())
    } else {
        s
    }
}

/// `s` without white space at either end.
pub open spec fn trim(s: Seq<char>) -> Seq<char> {
    trim_end(trim_start(s))
}

/// The end of `v[from..to]` once the white space it ends in is left out.
pub fn trimmed_end(v: &Vec<char>, from: usize, to: usize) -> (r: usize)
    requires
        from <= to <= v@.len(),
    ensures
        from <= r <= to,
        trim_end(v@.subrange(from as int, to as int)) == v@.subrange(from as int, r as int),
{
    let mut r: usize = to;
    while r > from && is_white_space(v[r - 1])
        invariant
            from <= r <= to <= v@.len(),
            trim_end(v@.subrange(from as int, to as int)) == trim_end(
                v@.subrange(from as int, r as int),
            ),
        decreases r,
    {
        proof {
            assert(v@.subrange(from as int, r as int).drop_last() == v@.subrange(
                from as int,
                r - 1,
            ));
        }
        r = r - 1;
    }
    r
}

/// The start of `v[from..to]` once the white space it begins with is left out.
pub fn trimmed_start(v: &Vec<char>, from: usize, to: usize) -> (r: usize)
    requires
        from <= to <= v@.len(),
    ensures
        from <= r <= to,
        trim_start(v@.subrange(from as int, to as int)) == v@.subrange(r as int, to as int),
{
    let mut r: usize = from;
    while r < to && is_white_space(v[r])
        invariant
            from <= r <= to <= v@.len(),
            trim_start(v@.subrange(from as int, to as int)) == trim_start(
                v@.subrange(r as int, to as int),
            ),
        decreases to - r,
    {
        proof {
            assert(v@.subrange(r as int, to as int).drop_first() == v@.subrange(
                r + 1,
                to as int,
            ));
        }
        r = r + 1;
    }
    r
}

/// The text without white space at either end.
pub fn trimmed(s: &str) -> (r: String)
    ensures
        r@ == trim(s@),
{
    let v = chars_of(s);
    let n: usize = v.len();
    let a = trimmed_start(&v, 0, n);
    let b = trimmed_end(&v, a, n);
    proof {
        assert(v@.subrange(0, n as int) == s@);
    }
    string_of(&v, a, b)
}

// ---------------------------------------------------------------------------
// Laws
// ---------------------------------------------------------------------------

/// What is trimmed off the beginning is white space, what is left does not
/// begin with any, and nothing else changes.
pub proof fn law_trim_start(s: Seq<char>) -> (k: int)
    ensures
        0 <= k <= s.len(),
        forall|i: int| 0 <= i < k ==> is_space(#[trigger] s[i]),
        k < s.len() ==> !is_space(s[k]),
        trim_start(s) == s.skip(k),
    decreases s.len(),
{
    if s.len() > 0 && is_space(s[0]) {
        let t = s.drop_first();
        let k = law_trim_start(t);
        assert forall|i: int| 0 <= i < k + 1 implies is_space(#[trigger] s[i]) by {
            if i > 0 {
                assert(t[i - 1] == s[i]);
            }
        }
        assert(t.skip(k) =~= s.skip(k + 1));
        k + 1
    } else {
        assert(s.skip(0) =~= s);
        0
    }
}

/// What is trimmed off the end is white space, what is left does not end in any,
/// and nothing else changes.
pub proof fn law_trim_end(s: Seq<char>) -> (k: int)
    ensures
        0 <= k <= s.len(),
        forall|i: int| k <= i < s.len() ==> is_space(#[trigger] s[i]),
        k > 0 ==> !is_space(s[k - 1]),
        trim_end(s) == s.take(k),
    decreases s.len(),
{
    if s.len() > 0 && is_space(s.last()) {
        let t = s.drop_last();
        let k = law_trim_end(t);
        assert forall|i: int| k <= i < s.len() implies is_space(#[trigger] s[i]) by {
            if i < t.len() {
                assert(t[i] == s[i]);
            }
        }
        assert(t.take(k) =~= s.take(k));
        k
    } else {
        assert(s.take(s.len() as int) =~= s);
        s.len() as int
    }
}

/// A trimmed text is what stands between the white space at both ends.
pub proof fn law_trim(s: Seq<char>) -> (r: (int, int))
    ensures
        0 <= r.0 <= r.1 <= s.len(),
        forall|i: int| 0 <= i < r.0 ==> is_space(#[trigger] s[i]),
        forall|i: int| r.1 <= i < s.len() ==> is_space(#[trigger] s[i]),
        trim(s) == s.subrange(r.0, r.1),
        trim(s).len() > 0 ==> !is_space(trim(s)[0]) && !is_space(trim(s).last()),
{
    let a = law_trim_start(s);
    let t = s.skip(a);
    let b = law_trim_end(t);
    assert forall|i: int| a + b <= i < s.len() implies is_space(#[trigger] s[i]) by {
        assert(t[i - a] == s[i]);
    }
    assert(t.take(b) =~= s.subrange(a, a + b));
    if b > 0 {
        assert(t[0] == s[a]);
    }
    (a, a + b)
}

/// The bytes of a character, each as a character, are those of its UTF-8 form.
pub proof fn law_bytes_as_chars(c: char)
    ensures
        bytes_as_chars(c).len() == utf8::encode_scalar(c as u32).len(),
        forall|i: int|
            0 <= i < bytes_as_chars(c).len() ==> (#[trigger] bytes_as_chars(c)[i]) as int
                == utf8::encode_scalar(c as u32)[i] as int,
{
}

/// A text stands in another exactly where that other is the text with something
/// before and after it.
pub proof fn law_contains(s: Seq<char>, pat: Seq<char>)
    ensures
        contains_text(s, pat) <==> exists|before: Seq<char>, after: Seq<char>|
            s == #[trigger] (before + pat + after),
{
    if contains_text(s, pat) {
        let i = choose|i: int| occurs_at(s, pat, i);
        let before = s.take(i);
        let after = s.skip(i + pat.len());
        assert(s =~= before + pat + after) by {
            assert(s.subrange(i, i + pat.len()) == pat);
        }
    }
    if exists|before: Seq<char>, after: Seq<char>| s == #[trigger] (before + pat + after) {
        let (before, after) = choose|before: Seq<char>, after: Seq<char>|
            s == #[trigger] (before + pat + after);
        let n = before.len() as int;
        assert(s.subrange(n, n + pat.len()) =~= pat);
        assert(occurs_at(s, pat, n));
    }
}

/// The length of a text in bytes is that of its characters, one after another,
/// each of one to four bytes by how large it is.
pub proof fn law_byte_lengths(s: Seq<char>, c: char)
    ensures
        byte_len(Seq::<char>::empty()) == 0,
        byte_len(s.push(c)) == byte_len(s) + char_width(c),
        char_width(c) == if c <= '\u{7f}' {
            1nat
        } else if c <= '\u{7ff}' {
            2nat
        } else if c <= '\u{ffff}' {
            3nat
        } else {
            4nat
        },
{
    utf8::char_is_scalar(c);
    assert(s.push(c) =~= s + seq![c]);
    lemma_byte_len_add(s, seq![c]);
    lemma_byte_len_one(c);
}

/// White space is the tabulator and what ends a line or a page, the spaces, broad,
/// narrow and unbroken, and the two separators of lines and paragraphs, by their
/// numbers in Unicode.
pub proof fn law_white_space(c: char)
    ensures
        is_space(c) <==> {
            let u = c as int;
            ||| 0x9 <= u <= 0xd
            ||| u == 0x20 || u == 0x85 || u == 0xa0 || u == 0x1680
            ||| 0x2000 <= u <= 0x200a
            ||| u == 0x2028 || u == 0x2029 || u == 0x202f || u == 0x205f || u == 0x3000
        },
{
}

proof fn lemma_found(s: Seq<char>, pat: Seq<char>, i: int)
    requires
        occurs_at(s, pat, i),
    ensures
        first_occurrence(s, pat) is Some,
    decreases i,
{
    if exists|j: int| 0 <= j < i && occurs_at(s, pat, j) {
        let j = choose|j: int| 0 <= j < i && occurs_at(s, pat, j);
        lemma_found(s, pat, j);
    } else {
        assert(is_first_occurrence(s, pat, i));
    }
}

/// A text is first found where it stands and does not stand any earlier; where it
/// stands nowhere, it is not found.
pub proof fn law_first_occurrence(s: Seq<char>, pat: Seq<char>)
    ensures
        first_occurrence(s, pat) is Some <==> exists|i: int|
            0 <= i <= s.len() - pat.len() && #[trigger] s.subrange(i, i + pat.len()) == pat,
        first_occurrence(s, pat) matches Some(k) ==> {
            &&& 0 <= k <= s.len() - pat.len()
            &&& s.subrange(k, k + pat.len()) == pat
            &&& forall|i: int| 0 <= i < k ==> #[trigger] s.subrange(i, i + pat.len()) != pat
        },
{
    if exists|i: int|
        0 <= i <= s.len() - pat.len() && #[trigger] s.subrange(i, i + pat.len()) == pat {
        let i = choose|i: int|
            0 <= i <= s.len() - pat.len() && #[trigger] s.subrange(i, i + pat.len()) == pat;
        assert(occurs_at(s, pat, i));
        lemma_found(s, pat, i);
    }
    if let Some(k) = first_occurrence(s, pat) {
        lemma_first_is_some(s, pat);
        assert(occurs_at(s, pat, k));
        assert forall|i: int| 0 <= i < k implies #[trigger] s.subrange(i, i + pat.len()) != pat by {
            assert(!occurs_at(s, pat, i));
        }
    }
}

} // verus!
