//! Character-level helpers shared by the validators and parsers.
//!
//! Strings are reasoned about through their character views (`s@`); these
//! helpers move between `&str`, `String` and `Vec<char>` and provide the
//! character classes (control, whitespace, ASCII case) that the rest of the
//! library is specified with.

use vstd::prelude::*;

verus! {

/// Unicode general category `Cc`: U+0000..=U+001F and U+007F..=U+009F.
pub open spec fn is_control_spec(c: char) -> bool {
    (c as u32) < 0x20 || (0x7f <= (c as u32) && (c as u32) <= 0x9f)
}

/// Returns `true` for a Unicode control character (category `Cc`).
pub fn is_control(c: char) -> (r: bool)
    ensures
        r == is_control_spec(c),
{
    let v = c as u32;
    v < 0x20 || (0x7f <= v && v <= 0x9f)
}

/// The Unicode `White_Space` property.
pub open spec fn is_whitespace_spec(c: char) -> bool {
    let v = c as u32;
    (0x09 <= v && v <= 0x0d) || v == 0x20 || v == 0x85 || v == 0xa0 || v == 0x1680 || (0x2000
        <= v && v <= 0x200a) || v == 0x2028 || v == 0x2029 || v == 0x202f || v == 0x205f || v
        == 0x3000
}

/// Returns `true` for a character with the Unicode `White_Space` property.
pub fn is_whitespace(c: char) -> (r: bool)
    ensures
        r == is_whitespace_spec(c),
{
    let v = c as u32;
    (0x09 <= v && v <= 0x0d) || v == 0x20 || v == 0x85 || v == 0xa0 || v == 0x1680 || (0x2000
        <= v && v <= 0x200a) || v == 0x2028 || v == 0x2029 || v == 0x202f || v == 0x205f || v
        == 0x3000
}

/// ASCII upper-casing of one character; every other character is unchanged.
pub open spec fn ascii_upper_spec(c: char) -> char {
    if 'a' <= c && c <= 'z' {
        ((c as u32) - 32) as char
    } else {
        c
    }
}

/// ASCII lower-casing of one character; every other character is unchanged.
pub open spec fn ascii_lower_spec(c: char) -> char {
    if 'A' <= c && c <= 'Z' {
        ((c as u32) + 32) as char
    } else {
        c
    }
}

/// Upper-cases an ASCII letter.
pub fn ascii_upper(c: char) -> (r: char)
    ensures
        r == ascii_upper_spec(c),
{
    if 'a' <= c && c <= 'z' {
        ((c as u32) - 32) as u8 as char
    } else {
        c
    }
}

/// Lower-cases an ASCII letter.
pub fn ascii_lower(c: char) -> (r: char)
    ensures
        r == ascii_lower_spec(c),
{
    if 'A' <= c && c <= 'Z' {
        ((c as u32) + 32) as u8 as char
    } else {
        c
    }
}

/// Number of bytes in the UTF-8 encoding of one character.
pub open spec fn utf8_width(c: char) -> nat {
    let v = c as u32;
    if v < 0x80 {
        1
    } else if v < 0x800 {
        2
    } else if v < 0x10000 {
        3
    } else {
        4
    }
}

/// Number of bytes in the UTF-8 encoding of a character sequence.
pub open spec fn utf8_len(s: Seq<char>) -> nat
    decreases s.len(),
{
    if s.len() == 0 {
        0
    } else {
        utf8_len(s.drop_last()) + utf8_width(s.last())
    }
}

/// Collects the characters of `s` into a vector.
pub fn chars_of(s: &str) -> (v: Vec<char>)
    ensures
        v@ == s@,
{
    let mut v: Vec<char> = Vec::new();
    for c in it: s.chars()
        invariant
            v@ == it.seq().take(it.index() as int),
    {
        v.push(c);
    }
    v
}

/// `String::push`.
///
/// Trusted: the string afterwards holds its old characters followed by `c`,
/// as the standard library documents.
#[verifier::external_body]
pub(crate) fn push_char(s: &mut String, c: char)
    ensures
        final(s)@ == old(s)@.push(c),
{
    s.push(c);
}

/// Builds a string holding exactly the characters of `v`.
pub fn string_of(v: &[char]) -> (s: String)
    ensures
        s@ == v@,
{
    let mut s = String::new();
    let n = v.len();
    for i in 0..n
        invariant
            n == v@.len(),
            s@ == v@.take(i as int),
    {
        push_char(&mut s, v[i]);
        assert(v@.take(i + 1) == v@.take(i as int).push(v@[i as int]));
    }
    assert(v@.take(n as int) == v@);
    s
}

/// Appends the characters of `t` to `s`.
pub fn push_str(s: &mut String, t: &str)
    ensures
        final(s)@ == old(s)@ + t@,
{
    let cs = chars_of(t);
    let n = cs.len();
    let ghost start = s@;
    for i in 0..n
        invariant
            n == cs@.len(),
            cs@ == t@,
            s@ == start + cs@.take(i as int),
    {
        push_char(s, cs[i]);
        assert(cs@.take(i + 1) == cs@.take(i as int).push(cs@[i as int]));
    }
    assert(cs@.take(n as int) == cs@);
}

/// Concatenation of two string slices.
pub fn concat2(a: &str, b: &str) -> (s: String)
    ensures
        s@ == a@ + b@,
{
    let mut s = String::new();
    push_str(&mut s, a);
    push_str(&mut s, b);
    s
}

/// Character-wise equality of two string slices.
pub fn str_equal(a: &str, b: &str) -> (r: bool)
    ensures
        r == (a@ == b@),
{
    let x = chars_of(a);
    let y = chars_of(b);
    seq_equal(&x, &y)
}

/// Element-wise equality of two character slices.
pub fn seq_equal(x: &[char], y: &[char]) -> (r: bool)
    ensures
        r == (x@ == y@),
{
    if x.len() != y.len() {
        return false;
    }
    let n = x.len();
    for i in 0..n
        invariant
            n == x@.len(),
            n == y@.len(),
            forall|j: int| 0 <= j < i ==> x@[j] == y@[j],
    {
        if x[i] != y[i] {
            return false;
        }
    }
    assert(x@ =~= y@);
    true
}

/// `true` when `c` occurs in `s`.
pub fn contains_char(s: &[char], c: char) -> (r: bool)
    ensures
        r == s@.contains(c),
{
    let n = s.len();
    for i in 0..n
        invariant
            n == s@.len(),
            forall|j: int| 0 <= j < i ==> s@[j] != c,
    {
        if s[i] == c {
            assert(s@[i as int] == c);
            return true;
        }
    }
    false
}

/// Decimal digit character for `d < 10`.
pub open spec fn digit_char(d: nat) -> char {
    ((d + 48) as u32) as char
}

/// The decimal representation of `n`, without sign or leading zeros.
pub open spec fn decimal(n: nat) -> Seq<char>
    decreases n,
{
    if n < 10 {
        seq![digit_char(n)]
    } else {
        decimal(n / 10).push(digit_char(n % 10))
    }
}

/// Formats `n` in decimal (what `u64`'s `Display` writes).
pub fn decimal_text(n: u64) -> (s: String)
    ensures
        s@ == decimal(n as nat),
    decreases n,
{
    if n < 10 {
        let mut s = String::new();
        push_char(&mut s, ((n + 48) as u8) as char);
        assert(s@ == seq![digit_char(n as nat)]);
        s
    } else {
        let mut s = decimal_text(n / 10);
        let d = n % 10;
        push_char(&mut s, ((d + 48) as u8) as char);
        s
    }
}

/// The pieces of `s` between occurrences of `sep` (like `str::split`): one
/// more piece than there are separators, empty pieces included.
pub open spec fn split_on(s: Seq<char>, sep: char) -> Seq<Seq<char>>
    decreases s.len(),
{
    if s.len() == 0 {
        seq![Seq::<char>::empty()]
    } else {
        let rest = split_on(s.drop_last(), sep);
        if s.last() == sep {
            rest.push(Seq::<char>::empty())
        } else {
            rest.update(rest.len() - 1, rest.last().push(s.last()))
        }
    }
}

/// `split_on` always yields at least one piece.
pub proof fn lemma_split_nonempty(s: Seq<char>, sep: char)
    ensures
        split_on(s, sep).len() >= 1,
    decreases s.len(),
{
    if s.len() > 0 {
        lemma_split_nonempty(s.drop_last(), sep);
    }
}

/// The character views of a sequence of character vectors.
pub open spec fn views_of(r: Seq<Vec<char>>) -> Seq<Seq<char>> {
    Seq::new(r.len(), |i: int| r[i]@)
}

/// Splits `v` at every occurrence of `sep`.
pub fn split_chars(v: &[char], sep: char) -> (r: Vec<Vec<char>>)
    ensures
        views_of(r@) == split_on(v@, sep),
{
    let mut done: Vec<Vec<char>> = Vec::new();
    let mut current: Vec<char> = Vec::new();
    let n = v.len();
    assert(v@.take(0) =~= Seq::<char>::empty());
    assert(views_of(done@).push(current@) =~= split_on(v@.take(0), sep));
    for i in 0..n
        invariant
            n == v@.len(),
            views_of(done@).push(current@) == split_on(v@.take(i as int), sep),
    {
        let c = v[i];
        let ghost before = v@.take(i as int);
        assert(v@.take(i + 1).drop_last() =~= before);
        assert(v@.take(i + 1).last() == c);
        proof {
            lemma_split_nonempty(before, sep);
        }
        let ghost old_views = views_of(done@);
        if c == sep {
            let finished = current;
            done.push(finished);
            current = Vec::new();
            assert(views_of(done@) =~= old_views.push(finished@));
            assert(views_of(done@).push(current@) =~= split_on(before, sep).push(
                Seq::<char>::empty(),
            ));
        } else {
            current.push(c);
            assert(views_of(done@).push(current@) =~= split_on(before, sep).update(
                split_on(before, sep).len() - 1,
                split_on(before, sep).last().push(c),
            ));
        }
    }
    assert(v@.take(n as int) =~= v@);
    let ghost old_views = views_of(done@);
    let last = current;
    done.push(last);
    assert(views_of(done@) =~= old_views.push(last@));
    done
}

/// Copies `v[i..j]` into a new vector.
pub fn copy_range(v: &[char], i: usize, j: usize) -> (r: Vec<char>)
    requires
        i <= j <= v@.len(),
    ensures
        r@ == v@.subrange(i as int, j as int),
{
    let mut r: Vec<char> = Vec::new();
    let mut k = i;
    while k < j
        invariant
            i <= k <= j <= v@.len(),
            r@ == v@.subrange(i as int, k as int),
        decreases j - k,
    {
        r.push(v[k]);
        assert(v@.subrange(i as int, k + 1) == v@.subrange(i as int, k as int).push(v@[k as int]));
        k = k + 1;
    }
    r
}

/// `true` when `v` holds exactly the characters of the literal `lit`.
pub fn eq_lit(v: &[char], lit: &str) -> (r: bool)
    ensures
        r == (v@ == lit@),
{
    let l = chars_of(lit);
    seq_equal(v, &l)
}

/// The UTF-8 length of a prefix never exceeds that of the whole sequence.
pub proof fn lemma_utf8_len_prefix(s: Seq<char>, k: int)
    requires
        0 <= k <= s.len(),
    ensures
        utf8_len(s.take(k)) <= utf8_len(s),
    decreases s.len(),
{
    if k < s.len() {
        lemma_utf8_len_prefix(s.drop_last(), k);
        assert(s.drop_last().take(k) =~= s.take(k));
    } else {
        assert(s.take(k) =~= s);
    }
}

/// Whether the UTF-8 encoding of `v` is longer than `limit` bytes.
pub fn utf8_longer_than(v: &[char], limit: u64) -> (r: bool)
    ensures
        r == (utf8_len(v@) > limit),
{
    let mut acc: u64 = 0;
    let n = v.len();
    for i in 0..n
        invariant
            n == v@.len(),
            acc == utf8_len(v@.take(i as int)),
            acc <= limit,
    {
        let c = v[i];
        let x = c as u32;
        let w: u64 = if x < 0x80 {
            1
        } else if x < 0x800 {
            2
        } else if x < 0x10000 {
            3
        } else {
            4
        };
        assert(v@.take(i + 1).drop_last() =~= v@.take(i as int));
        assert(w == utf8_width(c));
        if w > limit - acc {
            proof {
                lemma_utf8_len_prefix(v@, i + 1);
            }
            return true;
        }
        acc = acc + w;
    }
    assert(v@.take(n as int) =~= v@);
    false
}

/// Splitting a text without separators yields the text itself.
pub proof fn lemma_split_no_sep(s: Seq<char>, sep: char)
    requires
        !s.contains(sep),
    ensures
        split_on(s, sep) == seq![s],
    decreases s.len(),
{
    if s.len() > 0 {
        assert(!s.drop_last().contains(sep)) by {
            if s.drop_last().contains(sep) {
                let j = choose|j: int| 0 <= j < s.drop_last().len() && s.drop_last()[j] == sep;
                assert(s[j] == sep);
            }
        }
        lemma_split_no_sep(s.drop_last(), sep);
        assert(s.last() != sep) by {
            if s.last() == sep {
                assert(s[s.len() - 1] == sep);
            }
        }
        assert(s.drop_last().push(s.last()) =~= s);
    } else {
        assert(s =~= Seq::<char>::empty());
    }
}

/// A text holding a separator splits into at least two pieces.
pub proof fn lemma_split_with_sep(s: Seq<char>, sep: char)
    requires
        s.contains(sep),
    ensures
        split_on(s, sep).len() >= 2,
    decreases s.len(),
{
    lemma_split_nonempty(s, sep);
    if s.last() != sep {
        assert(s.drop_last().contains(sep)) by {
            let j = choose|j: int| 0 <= j < s.len() && s[j] == sep;
            assert(j != s.len() - 1);
            assert(s.drop_last()[j] == sep);
        }
        lemma_split_with_sep(s.drop_last(), sep);
    } else {
        lemma_split_nonempty(s.drop_last(), sep);
    }
}

/// The first piece of a split is the text before the first separator.
pub proof fn lemma_split_first(s: Seq<char>, sep: char, k: int)
    requires
        0 <= k <= s.len(),
        k == s.len() || s[k] == sep,
        forall|j: int| 0 <= j < k ==> s[j] != sep,
    ensures
        split_on(s, sep)[0] == s.take(k),
    decreases s.len(),
{
    if k == s.len() {
        assert(!s.contains(sep));
        lemma_split_no_sep(s, sep);
        assert(s.take(k) =~= s);
    } else {
        let t = s.drop_last();
        lemma_split_nonempty(t, sep);
        if k < t.len() {
            lemma_split_first(t, sep, k);
            assert(t.take(k) =~= s.take(k));
            assert(t.contains(sep)) by {
                assert(t[k] == sep);
            }
            lemma_split_with_sep(t, sep);
        } else {
            assert(!t.contains(sep));
            lemma_split_no_sep(t, sep);
            assert(t =~= s.take(k));
        }
    }
}

/// Every character of an ASCII text is one byte long.
pub proof fn lemma_utf8_len_ascii(s: Seq<char>)
    requires
        forall|i: int| 0 <= i < s.len() ==> (s[i] as u32) < 0x80,
    ensures
        utf8_len(s) == s.len(),
    decreases s.len(),
{
    if s.len() > 0 {
        lemma_utf8_len_ascii(s.drop_last());
        assert((s[s.len() - 1] as u32) < 0x80);
    }
}

/// `true` when `s` starts with `t`.
pub open spec fn has_prefix(s: Seq<char>, t: Seq<char>) -> bool {
    s.len() >= t.len() && s.take(t.len() as int) == t
}

/// `s` without its first `t.len()` characters, when it starts with `t`.
pub fn strip_prefix_chars(v: &[char], lit: &str) -> (r: Option<Vec<char>>)
    ensures
        has_prefix(v@, lit@) ==> (r matches Some(x) && x@ == v@.skip(lit@.len() as int)),
        !has_prefix(v@, lit@) ==> r is None,
{
    let t = chars_of(lit);
    if t.len() > v.len() {
        return None;
    }
    let head = copy_range(v, 0, t.len());
    if seq_equal(&head, &t) {
        let rest = copy_range(v, t.len(), v.len());
        Some(rest)
    } else {
        None
    }
}

/// `true` when `t` occurs in `s` as a contiguous run.
pub open spec fn has_infix(s: Seq<char>, t: Seq<char>) -> bool {
    exists|i: int| 0 <= i && i + t.len() <= s.len() && #[trigger] s.subrange(i, i + t.len()) == t
}

/// `true` when the text `t` occurs in `s` (`str::contains` with a string
/// pattern).
pub fn contains_text(s: &[char], t: &str) -> (r: bool)
    ensures
        r == has_infix(s@, t@),
{
    let p = chars_of(t);
    let n = s.len();
    let m = p.len();
    if m > n {
        assert(!has_infix(s@, t@));
        return false;
    }
    let mut i: usize = 0;
    while m <= n - i
        invariant
            i <= n,
            m <= n,
            n == s@.len(),
            m == p@.len(),
            p@ == t@,
            forall|j: int| 0 <= j < i ==> #[trigger] s@.subrange(j, j + m) != t@,
        decreases n - i,
    {
        let piece = copy_range(s, i, i + m);
        if seq_equal(&piece, &p) {
            return true;
        }
        assert(m > 0) by {
            if m == 0 {
                assert(piece@ =~= p@);
            }
        }
        i = i + 1;
    }
    assert forall|j: int| 0 <= j && j + t@.len() <= s@.len() implies #[trigger] s@.subrange(
        j,
        j + t@.len(),
    ) != t@ by {
        assert(j < i);
    }
    false
}

/// Splitting a text joined by one separator splits both halves.
pub proof fn lemma_split_concat(a: Seq<char>, b: Seq<char>, sep: char)
    ensures
        split_on(a + seq![sep] + b, sep) == split_on(a, sep) + split_on(b, sep),
    decreases b.len(),
{
    let s = a + seq![sep] + b;
    if b.len() == 0 {
        assert(s.drop_last() =~= a);
        assert(split_on(s, sep) =~= split_on(a, sep) + split_on(b, sep));
    } else {
        lemma_split_concat(a, b.drop_last(), sep);
        assert(s.drop_last() =~= a + seq![sep] + b.drop_last());
        lemma_split_nonempty(b.drop_last(), sep);
        lemma_split_nonempty(a, sep);
        let x = split_on(a, sep);
        let y = split_on(b.drop_last(), sep);
        if b.last() == sep {
            assert(split_on(s, sep) =~= x + y.push(Seq::<char>::empty()));
        } else {
            assert((x + y).update((x + y).len() - 1, (x + y).last().push(b.last())) =~= x
                + y.update(y.len() - 1, y.last().push(b.last())));
        }
    }
}

/// No piece of a split holds the separator.
pub proof fn lemma_split_pieces_no_sep(s: Seq<char>, sep: char)
    ensures
        forall|i: int| 0 <= i < split_on(s, sep).len() ==> !(#[trigger] split_on(s, sep)[i]).contains(sep),
    decreases s.len(),
{
    if s.len() == 0 {
        assert(!Seq::<char>::empty().contains(sep));
    } else {
        let rest = split_on(s.drop_last(), sep);
        lemma_split_pieces_no_sep(s.drop_last(), sep);
        lemma_split_nonempty(s.drop_last(), sep);
        if s.last() == sep {
            assert(!Seq::<char>::empty().contains(sep));
            assert forall|i: int| 0 <= i < split_on(s, sep).len() implies !(#[trigger] split_on(
                s,
                sep,
            )[i]).contains(sep) by {
                if i < rest.len() {
                    assert(split_on(s, sep)[i] == rest[i]);
                }
            }
        } else {
            let last = rest.last().push(s.last());
            assert(!last.contains(sep)) by {
                if last.contains(sep) {
                    let j = choose|j: int| 0 <= j < last.len() && last[j] == sep;
                    if j < rest.last().len() {
                        assert(rest.last()[j] == sep);
                        assert(rest[rest.len() - 1].contains(sep));
                    }
                }
            }
            assert forall|i: int| 0 <= i < split_on(s, sep).len() implies !(#[trigger] split_on(
                s,
                sep,
            )[i]).contains(sep) by {
                if i < rest.len() - 1 {
                    assert(split_on(s, sep)[i] == rest[i]);
                }
            }
        }
    }
}

/// The first piece of a split is the text up to the first separator: a
/// prefix without separators, followed by a separator or the end.
pub proof fn lemma_split_head(s: Seq<char>, sep: char)
    ensures
        split_on(s, sep)[0].len() <= s.len(),
        split_on(s, sep)[0] == s.take(split_on(s, sep)[0].len() as int),
        forall|j: int| 0 <= j < split_on(s, sep)[0].len() ==> s[j] != sep,
        split_on(s, sep)[0].len() == s.len() || s[split_on(s, sep)[0].len() as int] == sep,
    decreases s.len(),
{
    if s.len() == 0 {
        assert(s.take(0) =~= Seq::<char>::empty());
    } else {
        let t = s.drop_last();
        lemma_split_head(t, sep);
        lemma_split_nonempty(t, sep);
        let rest = split_on(t, sep);
        let h = rest[0];
        if s.last() == sep {
            assert(split_on(s, sep)[0] == h);
            assert(t.take(h.len() as int) =~= s.take(h.len() as int));
            assert forall|j: int| 0 <= j < h.len() implies s[j] != sep by {
                assert(s[j] == t[j]);
            }
        } else if rest.len() == 1 {
            if h.len() < t.len() {
                assert(t.contains(sep)) by {
                    assert(t[h.len() as int] == sep);
                }
                lemma_split_with_sep(t, sep);
            }
            assert(h =~= t);
            assert(split_on(s, sep)[0] == h.push(s.last()));
            assert(h.push(s.last()) =~= s);
            assert(s.take(s.len() as int) =~= s);
            assert forall|j: int| 0 <= j < s.len() implies s[j] != sep by {
                if j < t.len() {
                    assert(s[j] == t[j]);
                }
            }
        } else {
            assert(split_on(s, sep)[0] == h);
            if h.len() == t.len() {
                assert(!t.contains(sep)) by {
                    if t.contains(sep) {
                        let w = choose|w: int| 0 <= w < t.len() && t[w] == sep;
                        assert(t[w] != sep);
                    }
                }
                lemma_split_no_sep(t, sep);
            }
            assert(t.take(h.len() as int) =~= s.take(h.len() as int));
            assert(s[h.len() as int] == t[h.len() as int]);
            assert forall|j: int| 0 <= j < h.len() implies s[j] != sep by {
                assert(s[j] == t[j]);
            }
        }
    }
}

/// Each character takes at most four bytes.
pub proof fn lemma_utf8_len_bound(s: Seq<char>)
    ensures
        utf8_len(s) <= 4 * s.len(),
    decreases s.len(),
{
    if s.len() > 0 {
        lemma_utf8_len_bound(s.drop_last());
    }
}

} // verus!
