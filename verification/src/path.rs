//! Path validation and sanitization.
//!
//! Every user-provided or remote-provided path or file name goes through
//! these functions. They are deliberately strict: any ambiguity is treated
//! as an error rather than silently coerced. Paths are handled through their
//! text, with Unix component rules (see [`crate::components`]).

use vstd::prelude::*;

use crate::components::{components, components_of, Comp, Component, comps_view};
use crate::error::Error;
use crate::text::{
    ascii_upper, ascii_upper_spec, chars_of, contains_char, copy_range, eq_lit, is_control,
    is_control_spec, push_char, push_str, split_chars, split_on, string_of, utf8_len,
    utf8_longer_than, views_of, lemma_split_nonempty,
};

verus! {

/// Reasons a path can be rejected.
#[derive(Debug, Clone, Copy, PartialEq, Eq, Structural)]
pub enum InvalidPathReason {
    /// The path was empty.
    Empty,
    /// A component was an absolute path (e.g. `/etc/passwd`).
    Absolute,
    /// A component was a parent traversal (`..`).
    ParentTraversal,
    /// The path contained a NUL byte.
    NulByte,
    /// A component contained a control character.
    ControlCharacter,
}

/// Reasons a file name can be rejected.
#[derive(Debug, Clone, Copy, PartialEq, Eq, Structural)]
pub enum InvalidFileNameReason {
    /// The file name was empty.
    Empty,
    /// The file name was a Windows reserved device name.
    ReservedName,
    /// The file name contained a control character.
    ControlCharacter,
    /// The file name contained a NUL byte.
    NulByte,
    /// The file name contained a path separator.
    PathSeparator,
    /// The file name was longer than 255 bytes.
    TooLong,
}

/// A byte below 0x20 or the DEL byte; in UTF-8 text these are exactly the
/// characters below U+0020 and U+007F.
pub open spec fn is_control_byte_char(c: char) -> bool {
    (c as u32) < 0x20 || (c as u32) == 0x7f
}

/// `true` when a component holds a control byte.
pub open spec fn has_control_byte(n: Seq<char>) -> bool {
    exists|i: int| 0 <= i < n.len() && is_control_byte_char(#[trigger] n[i])
}

/// Progress of a left-to-right walk over the components of a path.
#[derive(Clone, Copy)]
pub enum Scan {
    /// No violation so far; `true` once a normal component was seen.
    Clean(bool),
    /// The walk stopped at the first violation.
    Rejected(InvalidPathReason),
}

/// One step of the walk used for untrusted relative paths.
pub open spec fn relative_step(acc: Scan, c: Component) -> Scan {
    match acc {
        Scan::Rejected(_) => acc,
        Scan::Clean(_) => match c {
            Component::RootDir => Scan::Rejected(InvalidPathReason::Absolute),
            Component::CurDir => acc,
            Component::ParentDir => Scan::Rejected(InvalidPathReason::ParentTraversal),
            Component::Normal(n) => if has_control_byte(n) {
                Scan::Rejected(InvalidPathReason::ControlCharacter)
            } else {
                Scan::Clean(true)
            },
        },
    }
}

/// The walk used for destinations chosen by the user: a root is allowed.
pub open spec fn output_step(acc: Scan, c: Component) -> Scan {
    match acc {
        Scan::Rejected(_) => acc,
        Scan::Clean(_) => match c {
            Component::RootDir | Component::CurDir => acc,
            Component::ParentDir => Scan::Rejected(InvalidPathReason::ParentTraversal),
            Component::Normal(n) => if has_control_byte(n) {
                Scan::Rejected(InvalidPathReason::ControlCharacter)
            } else {
                Scan::Clean(true)
            },
        },
    }
}

/// Walks all components with `relative_step`.
pub open spec fn relative_scan(cs: Seq<Component>) -> Scan
    decreases cs.len(),
{
    if cs.len() == 0 {
        Scan::Clean(false)
    } else {
        relative_step(relative_scan(cs.drop_last()), cs.last())
    }
}

/// Walks all components with `output_step`.
pub open spec fn output_scan(cs: Seq<Component>) -> Scan
    decreases cs.len(),
{
    if cs.len() == 0 {
        Scan::Clean(false)
    } else {
        output_step(output_scan(cs.drop_last()), cs.last())
    }
}

/// The first violation of an untrusted relative path, if any.
pub open spec fn path_violation(s: Seq<char>) -> Option<InvalidPathReason> {
    if s.len() == 0 {
        Some(InvalidPathReason::Empty)
    } else if s.contains('\0') {
        Some(InvalidPathReason::NulByte)
    } else {
        match relative_scan(components(s)) {
            Scan::Rejected(r) => Some(r),
            Scan::Clean(saw_normal) => if saw_normal {
                None
            } else {
                Some(InvalidPathReason::Empty)
            },
        }
    }
}

/// The text describing a path violation.
pub open spec fn path_reason_text(r: InvalidPathReason) -> Seq<char> {
    match r {
        InvalidPathReason::Empty => "empty path"@,
        InvalidPathReason::Absolute => "absolute path not allowed"@,
        InvalidPathReason::ParentTraversal => "parent traversal not allowed"@,
        InvalidPathReason::NulByte => "NUL byte in path"@,
        InvalidPathReason::ControlCharacter => "control character in path"@,
    }
}

/// The short tag of a file name violation.
pub open spec fn file_reason_text(r: InvalidFileNameReason) -> Seq<char> {
    match r {
        InvalidFileNameReason::Empty => "empty"@,
        InvalidFileNameReason::ReservedName => "reserved"@,
        InvalidFileNameReason::ControlCharacter => "control"@,
        InvalidFileNameReason::NulByte => "nul"@,
        InvalidFileNameReason::PathSeparator => "separator"@,
        InvalidFileNameReason::TooLong => "toolong"@,
    }
}

/// The full message of a file name violation.
pub open spec fn filename_message(r: InvalidFileNameReason) -> Seq<char> {
    file_reason_text(r) + match r {
        InvalidFileNameReason::Empty => ": name is empty"@,
        InvalidFileNameReason::ReservedName => ": reserved Windows name"@,
        InvalidFileNameReason::ControlCharacter => ": control character in name"@,
        InvalidFileNameReason::NulByte => ": NUL byte in name"@,
        InvalidFileNameReason::PathSeparator => ": path separator in name"@,
        InvalidFileNameReason::TooLong => ": name is too long"@,
    }
}

/// The Windows reserved device names.
pub open spec fn is_reserved_stem(t: Seq<char>) -> bool {
    t == "CON"@ || t == "PRN"@ || t == "AUX"@ || t == "NUL"@ || t == "COM1"@ || t == "COM2"@ || t
        == "COM3"@ || t == "COM4"@ || t == "COM5"@ || t == "COM6"@ || t == "COM7"@ || t
        == "COM8"@ || t == "COM9"@ || t == "LPT1"@ || t == "LPT2"@ || t == "LPT3"@ || t
        == "LPT4"@ || t == "LPT5"@ || t == "LPT6"@ || t == "LPT7"@ || t == "LPT8"@ || t
        == "LPT9"@
}

/// The ASCII-uppercased part of a name before its first `.`.
pub open spec fn name_stem(s: Seq<char>) -> Seq<char> {
    split_on(s.map_values(|c: char| ascii_upper_spec(c)), '.')[0]
}

/// `true` when some character of `s` is a Unicode control character.
pub open spec fn has_control_char(s: Seq<char>) -> bool {
    exists|i: int| 0 <= i < s.len() && is_control_spec(#[trigger] s[i])
}

/// The first violation of a file name, if any, in the order they are checked.
pub open spec fn filename_violation(s: Seq<char>) -> Option<InvalidFileNameReason> {
    if s.len() == 0 {
        Some(InvalidFileNameReason::Empty)
    } else if utf8_len(s) > 255 {
        Some(InvalidFileNameReason::TooLong)
    } else if s.contains('\0') {
        Some(InvalidFileNameReason::NulByte)
    } else if s.contains('/') || s.contains('\\') {
        Some(InvalidFileNameReason::PathSeparator)
    } else if has_control_char(s) {
        Some(InvalidFileNameReason::ControlCharacter)
    } else if is_reserved_stem(name_stem(s)) {
        Some(InvalidFileNameReason::ReservedName)
    } else {
        None
    }
}

/// The last normal component of a component list (empty if there is none).
pub open spec fn last_name(cs: Seq<Component>) -> Seq<char>
    decreases cs.len(),
{
    if cs.len() == 0 {
        seq![]
    } else {
        match cs.last() {
            Component::Normal(n) => n,
            _ => last_name(cs.drop_last()),
        }
    }
}

/// Why a destination chosen by the user is unusable.
pub enum OutputFault {
    /// The path as a whole is invalid.
    Path(InvalidPathReason),
    /// Its final component is not a valid file name.
    Name(InvalidFileNameReason),
}

/// The first violation of a user-chosen destination, if any.
pub open spec fn output_path_violation(s: Seq<char>) -> Option<OutputFault> {
    if s.len() == 0 {
        Some(OutputFault::Path(InvalidPathReason::Empty))
    } else if s.contains('\0') {
        Some(OutputFault::Path(InvalidPathReason::NulByte))
    } else {
        match output_scan(components(s)) {
            Scan::Rejected(r) => Some(OutputFault::Path(r)),
            Scan::Clean(saw_normal) => if !saw_normal {
                Some(OutputFault::Path(InvalidPathReason::Empty))
            } else {
                match filename_violation(last_name(components(s))) {
                    Some(r) => Some(OutputFault::Name(r)),
                    None => None,
                }
            },
        }
    }
}

/// The error reported for a violation of a user-chosen destination.
pub open spec fn output_fault_matches(f: OutputFault, e: Error) -> bool {
    match f {
        OutputFault::Path(r) => e matches Error::InvalidPath(m) && m@ == path_reason_text(r),
        OutputFault::Name(r) => e matches Error::InvalidFileName(m) && m@ == filename_message(r),
    }
}

/// `true` when a component text holds a control byte.
fn control_byte_in(n: &[char]) -> (r: bool)
    ensures
        r == has_control_byte(n@),
{
    let len = n.len();
    for i in 0..len
        invariant
            len == n@.len(),
            forall|j: int| 0 <= j < i ==> !is_control_byte_char(n@[j]),
    {
        let v = n[i] as u32;
        if v < 0x20 || v == 0x7f {
            assert(is_control_byte_char(n@[i as int]));
            return true;
        }
    }
    false
}

/// One executable walk step; `relative` selects the rules for untrusted
/// relative paths over those for user-chosen destinations.
fn scan_step(acc: Scan, c: &Comp, relative: bool) -> (r: Scan)
    ensures
        relative ==> r == relative_step(acc, c@),
        !relative ==> r == output_step(acc, c@),
{
    match acc {
        Scan::Rejected(_) => acc,
        Scan::Clean(_) => match c {
            Comp::RootDir => if relative {
                Scan::Rejected(InvalidPathReason::Absolute)
            } else {
                acc
            },
            Comp::CurDir => acc,
            Comp::ParentDir => Scan::Rejected(InvalidPathReason::ParentTraversal),
            Comp::Normal(n) => if control_byte_in(n) {
                Scan::Rejected(InvalidPathReason::ControlCharacter)
            } else {
                Scan::Clean(true)
            },
        },
    }
}

/// Walks the components of a path with the selected rules, and reports the
/// last normal component seen.
fn scan_components(cs: &Vec<Comp>, relative: bool) -> (r: (Scan, Vec<char>))
    ensures
        relative ==> r.0 == relative_scan(comps_view(cs@)),
        !relative ==> r.0 == output_scan(comps_view(cs@)),
        r.1@ == last_name(comps_view(cs@)),
{
    let mut acc = Scan::Clean(false);
    let mut last: Vec<char> = Vec::new();
    let n = cs.len();
    let ghost v = comps_view(cs@);
    assert(v.take(0) =~= Seq::<Component>::empty());
    for i in 0..n
        invariant
            n == cs@.len(),
            v == comps_view(cs@),
            relative ==> acc == relative_scan(v.take(i as int)),
            !relative ==> acc == output_scan(v.take(i as int)),
            last@ == last_name(v.take(i as int)),
    {
        assert(v.take(i + 1).drop_last() =~= v.take(i as int));
        assert(v.take(i + 1).last() == cs@[i as int]@);
        acc = scan_step(acc, &cs[i], relative);
        match &cs[i] {
            Comp::Normal(name) => {
                last = name.clone();
            },
            _ => {},
        }
    }
    assert(v.take(n as int) =~= v);
    (acc, last)
}

/// The message text of a path violation.
fn reason_str_path(r: InvalidPathReason) -> (s: String)
    ensures
        s@ == path_reason_text(r),
{
    let mut s = String::new();
    match r {
        InvalidPathReason::Empty => push_str(&mut s, "empty path"),
        InvalidPathReason::Absolute => push_str(&mut s, "absolute path not allowed"),
        InvalidPathReason::ParentTraversal => push_str(&mut s, "parent traversal not allowed"),
        InvalidPathReason::NulByte => push_str(&mut s, "NUL byte in path"),
        InvalidPathReason::ControlCharacter => push_str(&mut s, "control character in path"),
    }
    s
}

/// The short tag of a file name violation.
fn reason_str_file(r: InvalidFileNameReason) -> (s: &'static str)
    ensures
        s@ == file_reason_text(r),
{
    match r {
        InvalidFileNameReason::Empty => "empty",
        InvalidFileNameReason::ReservedName => "reserved",
        InvalidFileNameReason::ControlCharacter => "control",
        InvalidFileNameReason::NulByte => "nul",
        InvalidFileNameReason::PathSeparator => "separator",
        InvalidFileNameReason::TooLong => "toolong",
    }
}

/// The full message of a file name violation.
fn filename_message_text(r: InvalidFileNameReason) -> (s: String)
    ensures
        s@ == filename_message(r),
{
    let mut s = String::new();
    push_str(&mut s, reason_str_file(r));
    match r {
        InvalidFileNameReason::Empty => push_str(&mut s, ": name is empty"),
        InvalidFileNameReason::ReservedName => push_str(&mut s, ": reserved Windows name"),
        InvalidFileNameReason::ControlCharacter => push_str(
            &mut s,
            ": control character in name",
        ),
        InvalidFileNameReason::NulByte => push_str(&mut s, ": NUL byte in name"),
        InvalidFileNameReason::PathSeparator => push_str(&mut s, ": path separator in name"),
        InvalidFileNameReason::TooLong => push_str(&mut s, ": name is too long"),
    }
    s
}

/// `true` for a Windows reserved device name.
fn reserved_stem(t: &[char]) -> (r: bool)
    ensures
        r == is_reserved_stem(t@),
{
    eq_lit(t, "CON") || eq_lit(t, "PRN") || eq_lit(t, "AUX") || eq_lit(t, "NUL") || eq_lit(
        t,
        "COM1",
    ) || eq_lit(t, "COM2") || eq_lit(t, "COM3") || eq_lit(t, "COM4") || eq_lit(t, "COM5")
        || eq_lit(t, "COM6") || eq_lit(t, "COM7") || eq_lit(t, "COM8") || eq_lit(t, "COM9")
        || eq_lit(t, "LPT1") || eq_lit(t, "LPT2") || eq_lit(t, "LPT3") || eq_lit(t, "LPT4")
        || eq_lit(t, "LPT5") || eq_lit(t, "LPT6") || eq_lit(t, "LPT7") || eq_lit(t, "LPT8")
        || eq_lit(t, "LPT9")
}

/// The stem of a name, for the reserved-name check.
fn stem_of(v: &[char]) -> (r: Vec<char>)
    ensures
        r@ == name_stem(v@),
{
    let mut upper: Vec<char> = Vec::new();
    let n = v.len();
    for i in 0..n
        invariant
            n == v@.len(),
            upper@ == v@.take(i as int).map_values(|c: char| ascii_upper_spec(c)),
    {
        upper.push(ascii_upper(v[i]));
        assert(v@.take(i + 1).map_values(|c: char| ascii_upper_spec(c)) =~= v@.take(
            i as int,
        ).map_values(|c: char| ascii_upper_spec(c)).push(ascii_upper_spec(v@[i as int])));
    }
    assert(v@.take(n as int) =~= v@);
    let parts = split_chars(&upper, '.');
    proof {
        lemma_split_nonempty(upper@, '.');
    }
    assert(views_of(parts@)[0] == parts@[0]@);
    parts[0].clone()
}

/// `true` when some character is a Unicode control character.
fn control_char_in(v: &[char]) -> (r: bool)
    ensures
        r == has_control_char(v@),
{
    let n = v.len();
    for i in 0..n
        invariant
            n == v@.len(),
            forall|j: int| 0 <= j < i ==> !is_control_spec(v@[j]),
    {
        if is_control(v[i]) {
            assert(is_control_spec(v@[i as int]));
            return true;
        }
    }
    false
}

/// The first violation of a file name given as characters.
pub fn filename_check(v: &[char]) -> (r: Option<InvalidFileNameReason>)
    ensures
        r == filename_violation(v@),
{
    if v.len() == 0 {
        Some(InvalidFileNameReason::Empty)
    } else if utf8_longer_than(v, 255) {
        Some(InvalidFileNameReason::TooLong)
    } else if contains_char(v, '\0') {
        Some(InvalidFileNameReason::NulByte)
    } else if contains_char(v, '/') || contains_char(v, '\\') {
        Some(InvalidFileNameReason::PathSeparator)
    } else if control_char_in(v) {
        Some(InvalidFileNameReason::ControlCharacter)
    } else {
        let stem = stem_of(v);
        if reserved_stem(&stem) {
            Some(InvalidFileNameReason::ReservedName)
        } else {
            None
        }
    }
}

/// Validates a full path. The path must be relative, free of `..`
/// components, and contain no control characters or NUL bytes.
///
/// Fails with [`Error::InvalidPath`] describing the first violation.
pub fn validate_path(path: &str) -> (r: Result<(), Error>)
    ensures
        path_violation(path@) is None ==> r is Ok,
        path_violation(path@) matches Some(reason) ==> (r matches Err(Error::InvalidPath(m))
            && m@ == path_reason_text(reason)),
{
    let v = chars_of(path);
    match path_check(&v) {
        None => Ok(()),
        Some(reason) => Err(Error::InvalidPath(reason_str_path(reason))),
    }
}

/// The first violation of an untrusted relative path given as characters.
pub fn path_check(v: &[char]) -> (r: Option<InvalidPathReason>)
    ensures
        r == path_violation(v@),
{
    if v.len() == 0 {
        return Some(InvalidPathReason::Empty);
    }
    if contains_char(v, '\0') {
        return Some(InvalidPathReason::NulByte);
    }
    let cs = components_of(v);
    let (scan, _last) = scan_components(&cs, true);
    match scan {
        Scan::Rejected(r) => Some(r),
        Scan::Clean(saw) => if saw {
            None
        } else {
            Some(InvalidPathReason::Empty)
        },
    }
}

/// Validates the destination a user chose. It may be absolute, but `..`
/// components, NUL bytes and control characters are still refused with
/// [`Error::InvalidPath`], and a final component that is not a valid file
/// name (empty, too long, a Windows reserved device name, ...) with
/// [`Error::InvalidFileName`], on every platform.
pub fn validate_output_path(path: &str) -> (r: Result<(), Error>)
    ensures
        output_path_violation(path@) is None ==> r is Ok,
        output_path_violation(path@) matches Some(f) ==> (r matches Err(e)
            && output_fault_matches(f, e)),
{
    let v = chars_of(path);
    if v.len() == 0 {
        return Err(Error::InvalidPath(reason_str_path(InvalidPathReason::Empty)));
    }
    if contains_char(&v, '\0') {
        return Err(Error::InvalidPath(reason_str_path(InvalidPathReason::NulByte)));
    }
    let cs = components_of(&v);
    let (scan, last) = scan_components(&cs, false);
    match scan {
        Scan::Rejected(r) => Err(Error::InvalidPath(reason_str_path(r))),
        Scan::Clean(saw) => {
            if !saw {
                return Err(Error::InvalidPath(reason_str_path(InvalidPathReason::Empty)));
            }
            match filename_check(&last) {
                Some(r) => Err(Error::InvalidFileName(filename_message_text(r))),
                None => Ok(()),
            }
        },
    }
}

/// Validates a file name (not a path). The name must be non-empty, at most
/// 255 bytes long, contain no NUL byte, separator or control character, and
/// must not be a Windows reserved device name (on every platform).
///
/// Fails with [`Error::InvalidFileName`] describing the first violation.
pub fn validate_filename(name: &str) -> (r: Result<(), Error>)
    ensures
        filename_violation(name@) is None ==> r is Ok,
        filename_violation(name@) matches Some(reason) ==> (r matches Err(
            Error::InvalidFileName(m),
        ) && m@ == filename_message(reason)),
{
    let v = chars_of(name);
    match filename_check(&v) {
        None => Ok(()),
        Some(reason) => Err(Error::InvalidFileName(filename_message_text(reason))),
    }
}

/// Characters `sanitize_filename` replaces with `_`.
pub open spec fn is_unsafe_name_char(c: char) -> bool {
    is_control_spec(c) || c == '/' || c == '\\' || c == '\0' || c == ':' || c == '*' || c == '?'
        || c == '"' || c == '<' || c == '>' || c == '|'
}

/// The replacement of one character.
pub open spec fn sanitize_char(c: char) -> char {
    if is_unsafe_name_char(c) {
        '_'
    } else {
        c
    }
}

/// Characters trimmed from both ends of a sanitized name.
pub open spec fn is_trimmed(c: char) -> bool {
    c == ' ' || c == '.'
}

/// `s` without its leading trimmed characters.
pub open spec fn trim_start(s: Seq<char>) -> Seq<char>
    decreases s.len(),
{
    if s.len() > 0 && is_trimmed(s[0]) {
        trim_start(s.drop_first())
    } else {
        s
    }
}

/// `s` without its trailing trimmed characters.
pub open spec fn trim_end(s: Seq<char>) -> Seq<char>
    decreases s.len(),
{
    if s.len() > 0 && is_trimmed(s.last()) {
        trim_end(s.drop_last())
    } else {
        s
    }
}

/// The name with unsafe characters replaced and both ends trimmed.
pub open spec fn sanitized_core(s: Seq<char>) -> Seq<char> {
    trim_end(trim_start(s.map_values(|c: char| sanitize_char(c))))
}

/// The longest prefix of `s` whose UTF-8 encoding takes at most `limit`
/// bytes.
pub open spec fn byte_clip(s: Seq<char>, limit: nat) -> Seq<char>
    decreases s.len(),
{
    if utf8_len(s) <= limit || s.len() == 0 {
        s
    } else {
        byte_clip(s.drop_last(), limit)
    }
}

/// The usable name made of a cleaned name that is not one: cut to at most
/// 254 bytes, spaces and dots trimmed from the end again, and a `_` put in
/// front where the stem is a reserved device name.
pub open spec fn name_fallback(t: Seq<char>) -> Seq<char> {
    let q = trim_end(byte_clip(t, 254));
    if is_reserved_stem(name_stem(q)) {
        seq!['_'] + q
    } else {
        q
    }
}

/// What `sanitize_filename` returns.
pub open spec fn sanitized(s: Seq<char>) -> Seq<char> {
    let t = sanitized_core(s);
    if t.len() == 0 {
        "download.bin"@
    } else if filename_violation(t) is None {
        t
    } else {
        name_fallback(t)
    }
}

/// Replaces unsafe characters in `name` with `_`, trims spaces and dots from
/// both ends, and falls back to `download.bin` for an empty result. A result
/// that still fails [`validate_filename`] is cut to 254 bytes, trimmed at
/// the end again, and gets a `_` in front of a reserved device name. The
/// result is always a usable file name, and sanitizing it again leaves it
/// as it is.
pub fn sanitize_filename(name: &str) -> (r: String)
    ensures
        r@ == sanitized(name@),
        filename_violation(r@) is None,
{
    proof {
        law_sanitized_name_is_safe(name@);
    }
    let v = chars_of(name);
    let n = v.len();
    let mut mapped: Vec<char> = Vec::new();
    for i in 0..n
        invariant
            n == v@.len(),
            mapped@ == v@.take(i as int).map_values(|c: char| sanitize_char(c)),
    {
        let c = v[i];
        let unsafe_char = is_control(c) || c == '/' || c == '\\' || c == '\0' || c == ':' || c
            == '*' || c == '?' || c == '"' || c == '<' || c == '>' || c == '|';
        if unsafe_char {
            mapped.push('_');
        } else {
            mapped.push(c);
        }
        assert(v@.take(i + 1).map_values(|c: char| sanitize_char(c)) =~= v@.take(
            i as int,
        ).map_values(|c: char| sanitize_char(c)).push(sanitize_char(c)));
    }
    assert(v@.take(n as int) =~= v@);
    let ghost m = mapped@;
    let mut a: usize = 0;
    assert(m.subrange(0, n as int) =~= m);
    while a < n && (mapped[a] == ' ' || mapped[a] == '.')
        invariant
            n == m.len(),
            m == mapped@,
            a <= n,
            trim_start(m) == trim_start(m.subrange(a as int, n as int)),
        decreases n - a,
    {
        assert(m.subrange(a as int, n as int).drop_first() =~= m.subrange(a + 1, n as int));
        a = a + 1;
    }
    let mut b: usize = n;
    assert(trim_start(m) =~= m.subrange(a as int, n as int));
    while b > a && (mapped[b - 1] == ' ' || mapped[b - 1] == '.')
        invariant
            n == m.len(),
            m == mapped@,
            a <= b <= n,
            trim_end(trim_start(m)) == trim_end(m.subrange(a as int, b as int)),
        decreases b - a,
    {
        assert(m.subrange(a as int, b as int).drop_last() =~= m.subrange(a as int, b - 1));
        b = b - 1;
    }
    let t = copy_range(&mapped, a, b);
    assert(t@ == sanitized_core(name@));
    if t.len() == 0 {
        let mut r = String::new();
        push_str(&mut r, "download.bin");
        r
    } else if filename_check(&t).is_none() {
        string_of(&t)
    } else {
        let mut u = copy_range(&t, 0, t.len());
        let ghost u0 = u@;
        assert(u0 == t@);
        while utf8_longer_than(&u, 254)
            invariant
                byte_clip(u@, 254) == byte_clip(u0, 254),
            decreases u@.len(),
        {
            assert(u@.len() > 0);
            let ghost before = u@;
            u.pop();
            assert(u@ == before.drop_last());
        }
        assert(utf8_len(u@) <= 254);
        assert(u@ == byte_clip(u0, 254));
        let ghost c = u@;
        while u.len() > 0 && (u[u.len() - 1] == ' ' || u[u.len() - 1] == '.')
            invariant
                trim_end(u@) == trim_end(c),
            decreases u@.len(),
        {
            let ghost before = u@;
            u.pop();
            assert(u@ == before.drop_last());
        }
        assert(u@ == trim_end(c));
        let stem = stem_of(&u);
        if reserved_stem(&stem) {
            let mut r = String::new();
            push_char(&mut r, '_');
            let us = string_of(&u);
            push_str(&mut r, us.as_str());
            r
        } else {
            string_of(&u)
        }
    }
}

/// Joins a base directory with a relative path text (`Path::join`).
pub open spec fn joined(base: Seq<char>, rel: Seq<char>) -> Seq<char> {
    if is_rooted_text(rel) {
        rel
    } else if base.len() == 0 {
        rel
    } else if base.last() == '/' {
        base + rel
    } else {
        base + seq!['/'] + rel
    }
}

/// `true` when a path text starts with `/`.
pub open spec fn is_rooted_text(s: Seq<char>) -> bool {
    s.len() > 0 && s[0] == '/'
}

/// Joins two path texts as `Path::join` does.
pub fn join_path(base: &str, rel: &str) -> (r: String)
    ensures
        r@ == joined(base@, rel@),
{
    let b = chars_of(base);
    let x = chars_of(rel);
    if x.len() > 0 && x[0] == '/' {
        string_of(&x)
    } else if b.len() == 0 {
        string_of(&x)
    } else if b[b.len() - 1] == '/' {
        let mut r = string_of(&b);
        push_str(&mut r, rel);
        r
    } else {
        let mut r = string_of(&b);
        push_char(&mut r, '/');
        push_str(&mut r, rel);
        r
    }
}

/// Joins a base directory with a relative path, validating the relative
/// path first.
pub fn join_validated(base: &str, rel: &str) -> (r: Result<String, Error>)
    ensures
        path_violation(rel@) is None ==> (r matches Ok(p) && p@ == joined(base@, rel@)),
        path_violation(rel@) matches Some(reason) ==> (r matches Err(Error::InvalidPath(m))
            && m@ == path_reason_text(reason)),
{
    validate_path(rel)?;
    Ok(join_path(base, rel))
}

/// A walk that ends clean saw only `.` and clean names, and saw a name
/// exactly when it reports so.
proof fn lemma_relative_scan_clean(cs: Seq<Component>)
    requires
        relative_scan(cs) is Clean,
    ensures
        forall|i: int|
            0 <= i < cs.len() ==> (#[trigger] cs[i] is CurDir || (cs[i] matches Component::Normal(
                n,
            ) && !has_control_byte(n))),
        relative_scan(cs) == Scan::Clean(exists|i: int| 0 <= i < cs.len() && #[trigger] cs[i] is Normal),
    decreases cs.len(),
{
    if cs.len() > 0 {
        let prev = relative_scan(cs.drop_last());
        assert(prev is Clean);
        lemma_relative_scan_clean(cs.drop_last());
        assert forall|i: int| 0 <= i < cs.len() implies (#[trigger] cs[i] is CurDir || (
        cs[i] matches Component::Normal(n) && !has_control_byte(n))) by {
            if i < cs.len() - 1 {
                assert(cs[i] == cs.drop_last()[i]);
            }
        }
        if exists|i: int| 0 <= i < cs.len() && #[trigger] cs[i] is Normal {
            let i = choose|i: int| 0 <= i < cs.len() && #[trigger] cs[i] is Normal;
            if i < cs.len() - 1 {
                assert(cs.drop_last()[i] is Normal);
            }
        } else {
            assert forall|i: int| 0 <= i < cs.drop_last().len() implies !(
            #[trigger] cs.drop_last()[i] is Normal) by {
                assert(cs.drop_last()[i] == cs[i]);
            }
        }
    }
}

/// A path that passes [`validate_path`] is relative, holds no NUL byte, has no
/// `..` component and names at least one normal component, none of which
/// holds a control byte.
pub proof fn law_valid_path_is_relative(s: Seq<char>)
    requires
        path_violation(s) is None,
    ensures
        !is_rooted_text(s),
        !s.contains('\0'),
        forall|i: int|
            0 <= i < components(s).len() ==> !(#[trigger] components(s)[i] is ParentDir)
                && !(components(s)[i] is RootDir),
        exists|i: int| 0 <= i < components(s).len() && #[trigger] components(s)[i] is Normal,
{
    let cs = components(s);
    lemma_relative_scan_clean(cs);
    if is_rooted_text(s) {
        assert(cs[0] is RootDir);
    }
}

/// The result of trimming the front is a suffix of the input.
proof fn lemma_trim_start_suffix(s: Seq<char>)
    ensures
        trim_start(s).len() <= s.len(),
        trim_start(s) == s.subrange(s.len() - trim_start(s).len(), s.len() as int),
        trim_start(s).len() > 0 ==> !is_trimmed(trim_start(s)[0]),
    decreases s.len(),
{
    if s.len() > 0 && is_trimmed(s[0]) {
        lemma_trim_start_suffix(s.drop_first());
        let t = trim_start(s.drop_first());
        assert(s.drop_first().subrange(s.drop_first().len() - t.len(), s.drop_first().len() as int)
            =~= s.subrange(s.len() - t.len(), s.len() as int));
    } else {
        assert(s.subrange(0, s.len() as int) =~= s);
    }
}

/// The result of trimming the back is a prefix of the input.
proof fn lemma_trim_end_prefix(s: Seq<char>)
    ensures
        trim_end(s).len() <= s.len(),
        trim_end(s) == s.take(trim_end(s).len() as int),
        trim_end(s).len() > 0 ==> !is_trimmed(trim_end(s).last()),
    decreases s.len(),
{
    if s.len() > 0 && is_trimmed(s.last()) {
        lemma_trim_end_prefix(s.drop_last());
        let t = trim_end(s.drop_last());
        assert(s.drop_last().take(t.len() as int) =~= s.take(t.len() as int));
    } else {
        assert(s.take(s.len() as int) =~= s);
    }
}

/// A non-empty name made only of characters that sanitizing keeps can fail
/// validation only by length or by being a reserved device name.
proof fn lemma_safe_name_violations(r: Seq<char>)
    requires
        r.len() > 0,
        forall|i: int| 0 <= i < r.len() ==> !is_unsafe_name_char(#[trigger] r[i]),
    ensures
        filename_violation(r) is None || filename_violation(r) == Some(
            InvalidFileNameReason::TooLong,
        ) || filename_violation(r) == Some(InvalidFileNameReason::ReservedName),
{
    if r.contains('\0') {
        let j = choose|j: int| 0 <= j < r.len() && r[j] == '\0';
        assert(!is_unsafe_name_char(r[j]));
    }
    if r.contains('/') {
        let j = choose|j: int| 0 <= j < r.len() && r[j] == '/';
        assert(!is_unsafe_name_char(r[j]));
    }
    if r.contains('\\') {
        let j = choose|j: int| 0 <= j < r.len() && r[j] == '\\';
        assert(!is_unsafe_name_char(r[j]));
    }
    if has_control_char(r) {
        let j = choose|j: int| 0 <= j < r.len() && is_control_spec(#[trigger] r[j]);
        assert(!is_unsafe_name_char(r[j]));
    }
}

/// A text upper-cased in ASCII, character by character.
pub open spec fn uppered(x: Seq<char>) -> Seq<char> {
    x.map_values(|c: char| ascii_upper_spec(c))
}

/// A reserved device name has at most four characters, the first of them a
/// letter.
proof fn lemma_reserved_shape(t: Seq<char>)
    requires
        is_reserved_stem(t),
    ensures
        0 < t.len() <= 4,
        t[0] != '_',
{
    reveal_strlit("CON");
    if t == "CON"@ {
        assert("CON"@.len() == 3 && "CON"@[0] == 'C');
    }
    reveal_strlit("PRN");
    if t == "PRN"@ {
        assert("PRN"@.len() == 3 && "PRN"@[0] == 'P');
    }
    reveal_strlit("AUX");
    if t == "AUX"@ {
        assert("AUX"@.len() == 3 && "AUX"@[0] == 'A');
    }
    reveal_strlit("NUL");
    if t == "NUL"@ {
        assert("NUL"@.len() == 3 && "NUL"@[0] == 'N');
    }
    reveal_strlit("COM1");
    if t == "COM1"@ {
        assert("COM1"@.len() == 4 && "COM1"@[0] == 'C');
    }
    reveal_strlit("COM2");
    if t == "COM2"@ {
        assert("COM2"@.len() == 4 && "COM2"@[0] == 'C');
    }
    reveal_strlit("COM3");
    if t == "COM3"@ {
        assert("COM3"@.len() == 4 && "COM3"@[0] == 'C');
    }
    reveal_strlit("COM4");
    if t == "COM4"@ {
        assert("COM4"@.len() == 4 && "COM4"@[0] == 'C');
    }
    reveal_strlit("COM5");
    if t == "COM5"@ {
        assert("COM5"@.len() == 4 && "COM5"@[0] == 'C');
    }
    reveal_strlit("COM6");
    if t == "COM6"@ {
        assert("COM6"@.len() == 4 && "COM6"@[0] == 'C');
    }
    reveal_strlit("COM7");
    if t == "COM7"@ {
        assert("COM7"@.len() == 4 && "COM7"@[0] == 'C');
    }
    reveal_strlit("COM8");
    if t == "COM8"@ {
        assert("COM8"@.len() == 4 && "COM8"@[0] == 'C');
    }
    reveal_strlit("COM9");
    if t == "COM9"@ {
        assert("COM9"@.len() == 4 && "COM9"@[0] == 'C');
    }
    reveal_strlit("LPT1");
    if t == "LPT1"@ {
        assert("LPT1"@.len() == 4 && "LPT1"@[0] == 'L');
    }
    reveal_strlit("LPT2");
    if t == "LPT2"@ {
        assert("LPT2"@.len() == 4 && "LPT2"@[0] == 'L');
    }
    reveal_strlit("LPT3");
    if t == "LPT3"@ {
        assert("LPT3"@.len() == 4 && "LPT3"@[0] == 'L');
    }
    reveal_strlit("LPT4");
    if t == "LPT4"@ {
        assert("LPT4"@.len() == 4 && "LPT4"@[0] == 'L');
    }
    reveal_strlit("LPT5");
    if t == "LPT5"@ {
        assert("LPT5"@.len() == 4 && "LPT5"@[0] == 'L');
    }
    reveal_strlit("LPT6");
    if t == "LPT6"@ {
        assert("LPT6"@.len() == 4 && "LPT6"@[0] == 'L');
    }
    reveal_strlit("LPT7");
    if t == "LPT7"@ {
        assert("LPT7"@.len() == 4 && "LPT7"@[0] == 'L');
    }
    reveal_strlit("LPT8");
    if t == "LPT8"@ {
        assert("LPT8"@.len() == 4 && "LPT8"@[0] == 'L');
    }
    reveal_strlit("LPT9");
    if t == "LPT9"@ {
        assert("LPT9"@.len() == 4 && "LPT9"@[0] == 'L');
    }
}

/// Upper-casing never makes a `.` out of anything else, and keeps `_`.
proof fn lemma_upper_char(c: char)
    ensures
        ascii_upper_spec(c) == '.' ==> c == '.',
        c == '_' ==> ascii_upper_spec(c) == '_',
{
    if 'a' <= c && c <= 'z' {
        assert((((c as u32) - 32) as char) as u32 == (c as u32) - 32);
    }
}

/// The stem of a name: the upper-cased name up to its first `.`.
proof fn lemma_stem_is_head(x: Seq<char>)
    ensures
        name_stem(x).len() <= x.len(),
        name_stem(x) == uppered(x).take(name_stem(x).len() as int),
        forall|j: int| 0 <= j < name_stem(x).len() ==> #[trigger] uppered(x)[j] != '.',
        name_stem(x).len() == x.len() || uppered(x)[name_stem(x).len() as int]
            == '.',
{
    crate::text::lemma_split_head(uppered(x), '.');
    assert(name_stem(x) == crate::text::split_on(uppered(x), '.')[0]);
}

/// What cutting to a byte count gives: a prefix within the limit, not empty
/// for a nonempty text, and within four bytes of the limit where it cut.
proof fn lemma_byte_clip(s: Seq<char>, limit: nat)
    requires
        limit >= 4,
    ensures
        byte_clip(s, limit).len() <= s.len(),
        byte_clip(s, limit) == s.take(byte_clip(s, limit).len() as int),
        utf8_len(byte_clip(s, limit)) <= limit,
        s.len() > 0 ==> byte_clip(s, limit).len() > 0,
        utf8_len(s) <= limit ==> byte_clip(s, limit) == s,
        utf8_len(s) > limit ==> utf8_len(byte_clip(s, limit)) + 4 > limit,
    decreases s.len(),
{
    if utf8_len(s) <= limit || s.len() == 0 {
        assert(s.take(s.len() as int) =~= s);
    } else {
        let d = s.drop_last();
        lemma_byte_clip(d, limit);
        let c = byte_clip(d, limit);
        assert(d.take(c.len() as int) =~= s.take(c.len() as int));
        if d.len() == 0 {
            assert(utf8_len(d) == 0);
        }
    }
}

/// A text that starts with a character kept by trimming stays nonempty
/// when trimmed at the end.
proof fn lemma_trim_end_keeps_head(x: Seq<char>)
    requires
        x.len() > 0,
        !is_trimmed(x[0]),
    ensures
        trim_end(x).len() > 0,
    decreases x.len(),
{
    if is_trimmed(x.last()) {
        assert(x.len() > 1);
        assert(x.drop_last()[0] == x[0]);
        lemma_trim_end_keeps_head(x.drop_last());
    }
}

/// The UTF-8 length of a text with one character in front.
proof fn lemma_utf8_len_prepend(c: char, x: Seq<char>)
    ensures
        utf8_len(seq![c] + x) == crate::text::utf8_width(c) + utf8_len(x),
    decreases x.len(),
{
    if x.len() == 0 {
        assert(seq![c] + x =~= seq![c]);
        assert(seq![c].drop_last() =~= Seq::<char>::empty());
        assert(utf8_len(Seq::<char>::empty()) == 0);
        assert(utf8_len(seq![c]) == utf8_len(seq![c].drop_last()) + crate::text::utf8_width(seq![c].last()));
        assert(utf8_len(x) == 0);
    } else {
        lemma_utf8_len_prepend(c, x.drop_last());
        assert((seq![c] + x).drop_last() =~= seq![c] + x.drop_last());
        assert((seq![c] + x).last() == x.last());
    }
}

/// The fallback of a nonempty name made of characters a file name may
/// hold, and not starting with a space or a dot, is a usable file name that
/// neither starts nor ends with a space or a dot.
proof fn lemma_fallback_valid(t: Seq<char>)
    requires
        t.len() > 0,
        !is_trimmed(t[0]),
        forall|i: int| 0 <= i < t.len() ==> !is_unsafe_name_char(#[trigger] t[i]),
    ensures
        filename_violation(name_fallback(t)) is None,
        name_fallback(t).len() > 0,
        forall|i: int| 0 <= i < name_fallback(t).len() ==> !is_unsafe_name_char(#[trigger] name_fallback(t)[i]),
        !is_trimmed(name_fallback(t)[0]),
        !is_trimmed(name_fallback(t).last()),
{
    let c = byte_clip(t, 254);
    lemma_byte_clip(t, 254);
    assert(c == t.take(c.len() as int));
    assert(c[0] == t[0]);
    let q = trim_end(c);
    lemma_trim_end_prefix(c);
    lemma_trim_end_keeps_head(c);
    assert(q == c.take(q.len() as int));
    crate::text::lemma_utf8_len_prefix(c, q.len() as int);
    assert(utf8_len(q) <= 254);
    assert forall|i: int| 0 <= i < q.len() implies !is_unsafe_name_char(#[trigger] q[i]) by {
        assert(q[i] == c[i]);
        assert(c[i] == t[i]);
    }
    assert(q[0] == t[0]);
    let r = name_fallback(t);
    let ur = uppered(r);
    if is_reserved_stem(name_stem(q)) {
        assert(r == seq!['_'] + q);
        lemma_utf8_len_prepend('_', q);
        assert(crate::text::utf8_width('_') == 1);
        assert forall|i: int| 0 <= i < r.len() implies !is_unsafe_name_char(#[trigger] r[i]) by {
            if i > 0 {
                assert(r[i] == q[i - 1]);
            }
        }
        assert(r.last() == q.last());
        lemma_safe_name_violations(r);
        lemma_stem_is_head(r);
        let h = name_stem(r);
        lemma_upper_char('_');
        assert(ur[0] == '_');
        assert(h.len() > 0);
        assert(h[0] == ur[0]);
        if is_reserved_stem(h) {
            lemma_reserved_shape(h);
        }
    } else {
        assert(r == q);
        lemma_safe_name_violations(q);
    }
}

/// `download.bin` is a usable file name.
proof fn lemma_default_name_valid()
    ensures
        filename_violation("download.bin"@) is None,
{
    let d = "download.bin"@;
    reveal_strlit("download.bin");
    assert(d.len() == 12);
    assert forall|i: int| 0 <= i < d.len() implies (d[i] as u32) < 0x80 && !is_unsafe_name_char(#[trigger] d[i])
        && d[i] != '\0' && d[i] != '/' && d[i] != '\\' && (i < 8 ==> d[i] != '.') by {
    }
    crate::text::lemma_utf8_len_ascii(d);
    lemma_safe_name_violations(d);
    lemma_stem_is_head(d);
    let h = name_stem(d);
    let ud = uppered(d);
    assert forall|j: int| 0 <= j < 8 implies ud[j] != '.' by {
        lemma_upper_char(d[j]);
    }
    if h.len() < 8 {
        assert(ud[h.len() as int] == '.');
    }
    if is_reserved_stem(h) {
        lemma_reserved_shape(h);
    }
}

/// What [`sanitize_filename`] returns is always a usable file name: it is
/// never empty, holds none of the characters it replaces, neither starts
/// nor ends with a space or a dot, equals the cleaned name whenever that is
/// already valid, and passes [`validate_filename`].
pub proof fn law_sanitized_name_is_safe(s: Seq<char>)
    ensures
        sanitized(s).len() > 0,
        forall|i: int| 0 <= i < sanitized(s).len() ==> !is_unsafe_name_char(#[trigger] sanitized(s)[i]),
        !is_trimmed(sanitized(s)[0]),
        !is_trimmed(sanitized(s).last()),
        sanitized_core(s).len() > 0 && filename_violation(sanitized_core(s)) is None ==> sanitized(
            s,
        ) == sanitized_core(s),
        filename_violation(sanitized(s)) is None,
{
    let m = s.map_values(|c: char| sanitize_char(c));
    let a = trim_start(m);
    let t = sanitized_core(s);
    lemma_trim_start_suffix(m);
    lemma_trim_end_prefix(a);
    assert forall|i: int| 0 <= i < m.len() implies !is_unsafe_name_char(#[trigger] m[i]) by {
        assert(m[i] == sanitize_char(s[i]));
    }
    assert forall|i: int| 0 <= i < t.len() implies !is_unsafe_name_char(#[trigger] t[i]) by {
        assert(t[i] == a[i]);
        assert(a[i] == m[m.len() - a.len() + i]);
    }
    if t.len() > 0 {
        assert(t[0] == a[0]);
    }
    reveal_strlit("download.bin");
    let r = sanitized(s);
    if t.len() == 0 {
        assert(r == "download.bin"@);
        lemma_default_name_valid();
        assert(!is_unsafe_name_char(r[0]));
        assert forall|i: int| 0 <= i < r.len() implies !is_unsafe_name_char(#[trigger] r[i]) by {
        }
        assert(r.last() == r[11]);
    } else if filename_violation(t) is None {
    } else {
        lemma_fallback_valid(t);
    }
}

/// Sanitizing a sanitized name leaves it as it is.
pub proof fn law_sanitizing_twice_changes_nothing(s: Seq<char>)
    ensures
        sanitized(sanitized(s)) == sanitized(s),
{
    let r = sanitized(s);
    law_sanitized_name_is_safe(s);
    let m = r.map_values(|c: char| sanitize_char(c));
    assert(m =~= r);
    assert(trim_start(r) == r);
    assert(trim_end(r) == r);
    assert(sanitized_core(r) == r);
}

} // verus!
