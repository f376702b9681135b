use vstd::prelude::*;

verus! {

// ---------------------------------------------------------------------------
// Trusted interface to std's character classes and string building.
// ---------------------------------------------------------------------------

/// Whether `char::is_whitespace` holds of the character.
pub uninterp spec fn ws_char(c: char) -> bool;

/// Whether `char::is_numeric` holds of the character.
pub uninterp spec fn numeric_char(c: char) -> bool;

/// Whether `char::is_alphabetic` holds of the character.
pub uninterp spec fn alpha_char(c: char) -> bool;

/// Relies on char::is_whitespace: the White_Space property of the character
/// alone.  ASCII space, tab, line feed and carriage return have it; the ASCII
/// graphic characters do not.
pub assume_specification[ char::is_whitespace ](c: char) -> (r: bool)
    ensures
        r == ws_char(c),
        c == ' ' || c == '\t' || c == '\n' || c == '\r' ==> r,
        33 <= c as u32 && c as u32 <= 126 ==> !r,
;

/// Relies on char::is_numeric: a property of the character alone.  The ASCII
/// digits have it; no other ASCII character does.
pub assume_specification[ char::is_numeric ](c: char) -> (r: bool)
    ensures
        r == numeric_char(c),
        '0' as u32 <= c as u32 && c as u32 <= '9' as u32 ==> r,
        (c as u32) < ('0' as u32) || (('9' as u32) < (c as u32) && c as u32 <= 127) ==> !r,
;

/// Relies on char::is_alphabetic: a property of the character alone.  The
/// ASCII letters have it; no other ASCII character does.
pub assume_specification[ char::is_alphabetic ](c: char) -> (r: bool)
    ensures
        r == alpha_char(c),
        'a' as u32 <= c as u32 && c as u32 <= 'z' as u32 ==> r,
        'A' as u32 <= c as u32 && c as u32 <= 'Z' as u32 ==> r,
        c as u32 <= 127 && !('a' as u32 <= c as u32 && c as u32 <= 'z' as u32)
            && !('A' as u32 <= c as u32 && c as u32 <= 'Z' as u32) ==> !r,
;

/// Relies on char::is_alphanumeric, documented as the disjunction of
/// char::is_alphabetic and char::is_numeric.
pub assume_specification[ char::is_alphanumeric ](c: char) -> (r: bool)
    ensures
        r == (alpha_char(c) || numeric_char(c)),
;

/// Relies on String::push: appends the character to the end of the string.
pub assume_specification[ String::push ](s: &mut String, c: char)
    ensures
        final(s)@ == old(s)@.push(c),
;

// ---------------------------------------------------------------------------
// Character helpers.
// ---------------------------------------------------------------------------

/// An ASCII decimal digit.
pub open spec fn digit_char(c: char) -> bool {
    '0' as u32 <= c as u32 && c as u32 <= '9' as u32
}

/// An ASCII hexadecimal digit.
pub open spec fn hex_char(c: char) -> bool {
    digit_char(c) || ('a' as u32 <= c as u32 && c as u32 <= 'f' as u32) || ('A' as u32
        <= c as u32 && c as u32 <= 'F' as u32)
}

/// The ASCII-lowercased counterpart of a character.
pub open spec fn ascii_lower_char(c: char) -> char {
    if 'A' as u32 <= c as u32 && c as u32 <= 'Z' as u32 {
        (c as u32 + 32) as u8 as char
    } else {
        c
    }
}

/// ASCII-lowercases one character, as char::to_ascii_lowercase does.
pub fn to_lower_char(c: char) -> (r: char)
    ensures
        r == ascii_lower_char(c),
{
    let u = c as u32;
    if 65 <= u && u <= 90 {
        (u as u8 + 32) as char
    } else {
        c
    }
}


/// Decides `hex_char`.
pub fn is_hex_char(c: char) -> (r: bool)
    ensures
        r == hex_char(c),
{
    let u = c as u32;
    (48 <= u && u <= 57) || (97 <= u && u <= 102) || (65 <= u && u <= 70)
}

// ---------------------------------------------------------------------------
// Equality and lexicographic order.
// ---------------------------------------------------------------------------

/// Equality of two string slices, decided character by character.
pub fn str_eq(a: &str, b: &str) -> (r: bool)
    ensures
        r == (a@ == b@),
{
    let alen = a.unicode_len();
    let blen = b.unicode_len();
    if alen != blen {
        assert(a@ != b@) by {
            assert(a@.len() != b@.len());
        }
        return false;
    }
    let mut i: usize = 0;
    while i < alen
        invariant
            alen == a@.len(),
            blen == b@.len(),
            alen == blen,
            i <= alen,
            forall|j: int| 0 <= j < i ==> a@[j] == b@[j],
        decreases alen - i,
    {
        if a.get_char(i) != b.get_char(i) {
            assert(a@ != b@);
            return false;
        }
        i += 1;
    }
    assert(a@ =~= b@);
    true
}

/// Strict lexicographic order on character sequences, by scalar value.  This
/// is the order in which buckets of build inputs are emitted; on UTF-8 text it
/// agrees with the byte order that an ordered set of strings uses.
pub open spec fn lex_lt(a: Seq<char>, b: Seq<char>) -> bool
    decreases a.len(),
{
    if b.len() == 0 {
        false
    } else if a.len() == 0 {
        true
    } else if a[0] == b[0] {
        lex_lt(a.skip(1), b.skip(1))
    } else {
        (a[0] as u32) < (b[0] as u32)
    }
}

pub proof fn lemma_lex_lt_irreflexive(a: Seq<char>)
    ensures
        !lex_lt(a, a),
    decreases a.len(),
{
    if a.len() > 0 {
        lemma_lex_lt_irreflexive(a.skip(1));
    }
}

pub proof fn lemma_lex_lt_total(a: Seq<char>, b: Seq<char>)
    ensures
        a == b || lex_lt(a, b) || lex_lt(b, a),
    decreases a.len(),
{
    if a.len() > 0 && b.len() > 0 && a[0] == b[0] {
        lemma_lex_lt_total(a.skip(1), b.skip(1));
        if a.skip(1) == b.skip(1) {
            assert(a.len() == b.len());
            assert forall|i: int| 0 <= i < a.len() implies a[i] == b[i] by {
                if i >= 1 {
                    assert(a.skip(1)[i - 1] == a[i]);
                    assert(b.skip(1)[i - 1] == b[i]);
                }
            }
            assert(a =~= b);
        }
    } else if a.len() > 0 && b.len() > 0 {
        if a[0] as u32 == b[0] as u32 {
            lemma_char_u32_injective(a[0], b[0]);
        }
    }
}

pub proof fn lemma_lex_lt_transitive(a: Seq<char>, b: Seq<char>, c: Seq<char>)
    requires
        lex_lt(a, b),
        lex_lt(b, c),
    ensures
        lex_lt(a, c),
    decreases a.len(),
{
    if a.len() > 0 {
        if a[0] == b[0] && b[0] == c[0] {
            lemma_lex_lt_transitive(a.skip(1), b.skip(1), c.skip(1));
        }
    }
}

/// Decides `lex_lt`.
pub fn str_lt(a: &str, b: &str) -> (r: bool)
    ensures
        r == lex_lt(a@, b@),
{
    let alen = a.unicode_len();
    let blen = b.unicode_len();
    let mut i: usize = 0;
    assert(a@.skip(0) =~= a@ && b@.skip(0) =~= b@);
    loop
        invariant
            alen == a@.len(),
            blen == b@.len(),
            i <= alen,
            i <= blen,
            lex_lt(a@, b@) == lex_lt(a@.skip(i as int), b@.skip(i as int)),
            forall|j: int| 0 <= j < i ==> a@[j] == b@[j],
        decreases alen - i,
    {
        if i >= blen {
            assert(b@.skip(i as int).len() == 0);
            return false;
        }
        if i >= alen {
            assert(a@.skip(i as int).len() == 0 && b@.skip(i as int).len() > 0);
            return true;
        }
        let ca = a.get_char(i);
        let cb = b.get_char(i);
        assert(a@.skip(i as int)[0] == a@[i as int] && b@.skip(i as int)[0] == b@[i as int]);
        if ca as u32 != cb as u32 {
            assert(ca != cb) by {
                if ca == cb {
                }
            }
            return (ca as u32) < (cb as u32);
        }
        assert(ca == cb) by {
            crate::text::lemma_char_u32_injective(ca, cb);
        }
        assert(a@.skip(i as int).skip(1) =~= a@.skip(i + 1)) by {
            vstd::seq_lib::lemma_seq_skip_of_skip(a@, i as int, 1);
        }
        assert(b@.skip(i as int).skip(1) =~= b@.skip(i + 1)) by {
            vstd::seq_lib::lemma_seq_skip_of_skip(b@, i as int, 1);
        }
        i += 1;
    }
}

/// Two characters with one scalar value are one character.
pub proof fn lemma_char_u32_injective(a: char, b: char)
    requires
        a as u32 == b as u32,
    ensures
        a == b,
{
    vstd::utf8::char_u32_cast(a, a as u32);
    vstd::utf8::char_u32_cast(b, b as u32);
}

// ---------------------------------------------------------------------------
// Prefixes and substrings.
// ---------------------------------------------------------------------------

/// Whether `p` is a prefix of `s`.
pub open spec fn has_prefix(s: Seq<char>, p: Seq<char>) -> bool {
    p.len() <= s.len() && s.take(p.len() as int) == p
}

/// Decides `has_prefix`.
pub fn starts_with_str(s: &str, p: &str) -> (r: bool)
    ensures
        r == has_prefix(s@, p@),
{
    let slen = s.unicode_len();
    let plen = p.unicode_len();
    if plen > slen {
        return false;
    }
    let head = s.substring_char(0, plen);
    assert(head@ =~= s@.take(p@.len() as int));
    str_eq(head, p)
}

/// The suffix of `s` after a prefix `p`, when `p` is one.
pub fn strip_prefix_str<'a>(s: &'a str, p: &str) -> (r: Option<&'a str>)
    ensures
        has_prefix(s@, p@) ==> (r matches Some(t) && t@ == s@.skip(p@.len() as int)),
        !has_prefix(s@, p@) ==> r is None,
{
    if starts_with_str(s, p) {
        let slen = s.unicode_len();
        let plen = p.unicode_len();
        let tail = s.substring_char(plen, slen);
        assert(tail@ =~= s@.skip(p@.len() as int));
        Some(tail)
    } else {
        None
    }
}

/// Whether `p` is a suffix of `s`.
pub open spec fn has_suffix(s: Seq<char>, p: Seq<char>) -> bool {
    p.len() <= s.len() && s.skip(s.len() - p.len()) == p
}

/// The prefix of `s` before a suffix `p`, when `p` is one.
pub fn strip_suffix_str<'a>(s: &'a str, p: &str) -> (r: Option<&'a str>)
    ensures
        has_suffix(s@, p@) ==> (r matches Some(t) && t@ == s@.take(s@.len() - p@.len())),
        !has_suffix(s@, p@) ==> r is None,
{
    let slen = s.unicode_len();
    let plen = p.unicode_len();
    if plen > slen {
        return None;
    }
    let tail = s.substring_char(slen - plen, slen);
    assert(tail@ =~= s@.skip(s@.len() - p@.len()));
    if str_eq(tail, p) {
        let head = s.substring_char(0, slen - plen);
        assert(head@ =~= s@.take(s@.len() - p@.len()));
        Some(head)
    } else {
        None
    }
}

// ---------------------------------------------------------------------------
// Whitespace trimming and tokens.
// ---------------------------------------------------------------------------

/// `s` without its leading whitespace.
pub open spec fn trim_start_view(s: Seq<char>) -> Seq<char>
    decreases s.len(),
{
    if s.len() > 0 && ws_char(s[0]) {
        trim_start_view(s.skip(1))
    } else {
        s
    }
}

/// `s` without its trailing whitespace.
pub open spec fn trim_end_view(s: Seq<char>) -> Seq<char>
    decreases s.len(),
{
    if s.len() > 0 && ws_char(s[s.len() - 1]) {
        trim_end_view(s.take(s.len() - 1))
    } else {
        s
    }
}

/// Trims leading whitespace, as str::trim_start does.
pub fn trim_start_str(s: &str) -> (r: &str)
    ensures
        r@ == trim_start_view(s@),
{
    let len = s.unicode_len();
    let mut i: usize = 0;
    assert(s@.skip(0) =~= s@);
    while i < len && s.get_char(i).is_whitespace()
        invariant
            len == s@.len(),
            i <= len,
            trim_start_view(s@) == trim_start_view(s@.skip(i as int)),
        decreases len - i,
    {
        proof {
            assert(s@.skip(i as int)[0] == s@[i as int]);
            assert(s@.skip(i as int).skip(1) =~= s@.skip(i + 1));
        }
        i += 1;
    }
    let r = s.substring_char(i, len);
    proof {
        assert(r@ =~= s@.skip(i as int));
        if i < len {
            assert(s@.skip(i as int)[0] == s@[i as int]);
        }
    }
    r
}

/// Trims trailing whitespace, as str::trim_end does.
pub fn trim_end_str(s: &str) -> (r: &str)
    ensures
        r@ == trim_end_view(s@),
{
    let len = s.unicode_len();
    let mut j: usize = len;
    assert(s@.take(len as int) =~= s@);
    while j > 0 && s.get_char(j - 1).is_whitespace()
        invariant
            len == s@.len(),
            j <= len,
            trim_end_view(s@) == trim_end_view(s@.take(j as int)),
        decreases j,
    {
        proof {
            assert(s@.take(j as int)[j - 1] == s@[j - 1]);
            assert(s@.take(j as int).take(j - 1) =~= s@.take(j - 1));
        }
        j -= 1;
    }
    let r = s.substring_char(0, j);
    proof {
        assert(r@ =~= s@.take(j as int));
        if j > 0 {
            assert(s@.take(j as int)[j - 1] == s@[j - 1]);
        }
    }
    r
}

/// Trims whitespace on both ends, as str::trim does.
pub fn trim_str(s: &str) -> (r: &str)
    ensures
        r@ == trim_end_view(trim_start_view(s@)),
{
    trim_end_str(trim_start_str(s))
}

/// The length of the leading run of non-whitespace characters.
pub open spec fn token_len(s: Seq<char>) -> int
    decreases s.len(),
{
    if s.len() > 0 && !ws_char(s[0]) {
        1 + token_len(s.skip(1))
    } else {
        0
    }
}


/// The first whitespace-delimited token of `s` and everything after it, or
/// None when only whitespace is left.
pub open spec fn next_token_view(s: Seq<char>) -> Option<(Seq<char>, Seq<char>)> {
    let t = trim_start_view(s);
    if t.len() == 0 {
        None
    } else {
        Some((t.take(token_len(t)), t.skip(token_len(t))))
    }
}

/// Takes the next whitespace-delimited token, as one step of
/// str::split_whitespace does.
pub fn next_token<'a>(s: &'a str) -> (r: Option<(&'a str, &'a str)>)
    ensures
        match r {
            Some(p) => (next_token_view(s@) matches Some(q) && p.0@ == q.0 && p.1@ == q.1),
            None => next_token_view(s@) is None,
        },
{
    let t = trim_start_str(s);
    let tlen = t.unicode_len();
    if tlen == 0 {
        return None;
    }
    let mut i: usize = 0;
    assert(t@.skip(0) =~= t@);
    while i < tlen && !t.get_char(i).is_whitespace()
        invariant
            tlen == t@.len(),
            i <= tlen,
            token_len(t@) == i + token_len(t@.skip(i as int)),
            forall|j: int| 0 <= j < i ==> !ws_char(t@[j]),
        decreases tlen - i,
    {
        proof {
            assert(t@.skip(i as int)[0] == t@[i as int]);
            assert(t@.skip(i as int).skip(1) =~= t@.skip(i + 1));
        }
        i += 1;
    }
    proof {
        if i < tlen {
            assert(t@.skip(i as int)[0] == t@[i as int]);
        }
        assert(token_len(t@) == i);
    }
    let tok = t.substring_char(0, i);
    let rest = t.substring_char(i, tlen);
    proof {
        assert(tok@ =~= t@.take(i as int));
        assert(rest@ =~= t@.skip(i as int));
    }
    Some((tok, rest))
}

// ---------------------------------------------------------------------------
// Lines.
// ---------------------------------------------------------------------------

/// The first line of `s`: everything before the first line feed, without a
/// trailing carriage return, as str::lines yields it.
pub open spec fn first_line_view(s: Seq<char>) -> Seq<char> {
    let upto = if exists|i: int| 0 <= i < s.len() && s[i] == '\n' {
        choose|i: int| 0 <= i < s.len() && s[i] == '\n' && forall|j: int|
            0 <= j < i ==> s[j] != '\n'
    } else {
        s.len() as int
    };
    let line = s.take(upto);
    if line.len() > 0 && line[line.len() - 1] == '\r' {
        line.take(line.len() - 1)
    } else {
        line
    }
}

/// The first line of `s`; the empty string when `s` is empty.
pub fn first_line(s: &str) -> (r: &str)
    ensures
        r@ == first_line_view(s@),
{
    let len = s.unicode_len();
    let mut i: usize = 0;
    while i < len && s.get_char(i) != '\n'
        invariant
            len == s@.len(),
            i <= len,
            forall|j: int| 0 <= j < i ==> s@[j] != '\n',
        decreases len - i,
    {
        i += 1;
    }
    proof {
        if i < len {
            assert(0 <= i < s@.len() && s@[i as int] == '\n' && forall|j: int|
                0 <= j < i ==> s@[j] != '\n');
            let w = choose|k: int|
                0 <= k < s@.len() && s@[k] == '\n' && forall|j: int| 0 <= j < k ==> s@[j] != '\n';
            assert(!(w < i) && !(i < w));
        } else {
            assert(forall|k: int| 0 <= k < s@.len() ==> s@[k] != '\n');
        }
    }
    let line = s.substring_char(0, i);
    assert(line@ =~= s@.take(i as int));
    let llen = line.unicode_len();
    if llen > 0 && line.get_char(llen - 1) == '\r' {
        let r = line.substring_char(0, llen - 1);
        assert(r@ =~= line@.take(line@.len() - 1));
        r
    } else {
        line
    }
}

} // verus!
