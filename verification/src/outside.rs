//! The calls into other crates, each with what is taken on trust about it.

use vstd::prelude::*;
use vstd::utf8::{decode_utf8, valid_utf8};

use crate::file_shared::lf_view;
use crate::numbered::line_count;

verus! {

/// One operation of a diff: an equal stretch, or a change that replaces
/// `old_len` items at `old_start` by `new_len` others.
#[derive(Debug, Clone, Copy, PartialEq, Eq, Structural)]
pub struct DiffStep {
    pub equal: bool,
    pub old_start: usize,
    pub old_len: usize,
    pub new_len: usize,
}

/// How many items the equal stretches of a diff hold.
pub open spec fn equal_total(steps: Seq<DiffStep>) -> nat
    decreases steps.len(),
{
    if steps.len() == 0 {
        0
    } else {
        equal_total(steps.drop_last()) + (if steps.last().equal {
            steps.last().old_len as nat
        } else {
            0
        })
    }
}

/// The operations of `similar`'s character diff of two texts.
pub uninterp spec fn char_steps(a: Seq<char>, b: Seq<char>) -> Seq<DiffStep>;

/// `similar::TextDiff::from_chars(..).ops()`: the diff of two texts, character by
/// character. Taken on trust: the operations depend on the two texts alone, and
/// twice the characters in equal stretches is at most the sum of the two lengths
/// (the similarity ratio lies in `0..=1`).
#[verifier::external_body]
pub(crate) fn char_diff(a: &str, b: &str) -> (steps: Vec<DiffStep>)
    ensures
        steps@ == char_steps(a@, b@),
        2 * equal_total(steps@) <= a@.len() + b@.len(),
{
    let diff = similar::TextDiff::from_chars(a, b);
    diff.ops().iter().map(|op| DiffStep {
        equal: op.tag() == similar::DiffTag::Equal,
        old_start: op.old_range().start,
        old_len: op.old_range().len(),
        new_len: op.new_range().len(),
    }).collect()
}

/// Lines added by the changes of a diff.
pub open spec fn added_total(steps: Seq<DiffStep>) -> nat
    decreases steps.len(),
{
    if steps.len() == 0 {
        0
    } else {
        added_total(steps.drop_last()) + (if steps.last().equal {
            0
        } else {
            steps.last().new_len as nat
        })
    }
}

/// Lines removed by the changes of a diff.
pub open spec fn removed_total(steps: Seq<DiffStep>) -> nat
    decreases steps.len(),
{
    if steps.len() == 0 {
        0
    } else {
        removed_total(steps.drop_last()) + (if steps.last().equal {
            0
        } else {
            steps.last().old_len as nat
        })
    }
}

/// The 1-based line of the first change, 1 when there is none.
pub open spec fn first_change(steps: Seq<DiffStep>) -> int
    decreases steps.len(),
{
    if steps.len() == 0 {
        1
    } else if !steps[0].equal {
        steps[0].old_start + 1
    } else {
        first_change(steps.skip(1))
    }
}

/// The operations of `similar`'s line diff of two texts.
pub uninterp spec fn line_steps(a: Seq<char>, b: Seq<char>) -> Seq<DiffStep>;

/// `similar::TextDiff::from_lines(..).ops()`: the diff of two texts, line by line.
/// Taken on trust: the operations depend on the two texts alone, and they cover no
/// more lines than a text has. A line ends at a line feed, a carriage return, or the
/// two together.
#[verifier::external_body]
pub(crate) fn line_diff(a: &str, b: &str) -> (steps: Vec<DiffStep>)
    ensures
        steps@ == line_steps(a@, b@),
        removed_total(steps@) <= line_count(lf_view(a@)),
        added_total(steps@) <= line_count(lf_view(b@)),
        first_change(steps@) <= line_count(lf_view(a@)) + 1,
{
    let diff = similar::TextDiff::from_lines(a, b);
    diff.ops().iter().map(|op| DiffStep {
        equal: op.tag() == similar::DiffTag::Equal,
        old_start: op.old_range().start,
        old_len: op.old_range().len(),
        new_len: op.new_range().len(),
    }).collect()
}

/// `similar`'s unified diff of two texts under the two file headers.
pub uninterp spec fn unified_text(
    before: Seq<char>,
    after: Seq<char>,
    radius: nat,
    old_name: Seq<char>,
    new_name: Seq<char>,
) -> Seq<char>;

/// `similar::TextDiff::from_lines(..).unified_diff()` with a context radius and a
/// header, rendered. Taken on trust: the text depends on these arguments alone. The
/// radius is doubled inside, so it is at most half the largest `usize`.
#[verifier::external_body]
pub(crate) fn unified(
    before: &str,
    after: &str,
    radius: usize,
    old_name: &str,
    new_name: &str,
) -> (out: String)
    requires
        radius <= usize::MAX / 2,
    ensures
        out@ == unified_text(before@, after@, radius as nat, old_name@, new_name@),
{
    let diff = similar::TextDiff::from_lines(before, after);
    diff.unified_diff().context_radius(radius).header(old_name, new_name).to_string()
}

/// The SHA-256 digest of some bytes.
pub uninterp spec fn sha256_digest(bytes: Seq<u8>) -> Seq<u8>;

/// `sha2::Sha256::digest`: the SHA-256 digest, 32 bytes that depend on the input
/// alone.
#[verifier::external_body]
pub(crate) fn sha256(bytes: &[u8]) -> (digest: Vec<u8>)
    ensures
        digest@ == sha256_digest(bytes@),
        digest@.len() == 32,
{
    <sha2::Sha256 as sha2::Digest>::digest(bytes).to_vec()
}

/// The lowercase hexadecimal digit of a half byte.
pub open spec fn hex_digit(n: int) -> char {
    if n < 10 {
        (48 + n) as char
    } else {
        (87 + n) as char
    }
}

/// `bytes` in lowercase hexadecimal, two digits for each byte.
pub open spec fn hex_text(bytes: Seq<u8>) -> Seq<char> {
    Seq::new(
        2 * bytes.len(),
        |i: int| hex_digit(if i % 2 == 0 { bytes[i / 2] as int / 16 } else { bytes[i / 2] as int % 16 }),
    )
}

/// `hex::encode`: the bytes in lowercase hexadecimal, high half first.
#[verifier::external_body]
pub(crate) fn hex_encode(bytes: &[u8]) -> (out: String)
    ensures
        out@ == hex_text(bytes@),
{
    hex::encode(bytes)
}

/// Why `regex` refuses a pattern on machines with pointers of so many bits; nothing
/// when it accepts it.
pub uninterp spec fn regex_refusal(pattern: Seq<char>, pointer_bits: nat) -> Option<Seq<char>>;

/// Why `regex` refuses a pattern on this machine; nothing when it accepts it.
pub open spec fn regex_error(pattern: Seq<char>) -> Option<Seq<char>> {
    regex_refusal(pattern, usize::BITS as nat)
}

/// `regex::Regex::new`: whether a pattern compiles, and the error's text when it
/// does not. Taken on trust: the outcome depends on the pattern and on the width of a
/// pointer alone (a pattern is refused by the memory that its program would take).
#[verifier::external_body]
pub(crate) fn regex_check(pattern: &str) -> (r: Option<String>)
    ensures
        match r {
            Some(e) => regex_refusal(pattern@, usize::BITS as nat) == Some(e@),
            None => regex_refusal(pattern@, usize::BITS as nat) is None,
        },
{
    match regex::Regex::new(pattern) {
        Ok(_) => None,
        Err(e) => Some(e.to_string()),
    }
}

/// Whether a regular expression matches somewhere in a text.
pub uninterp spec fn regex_found(pattern: Seq<char>, text: Seq<char>) -> bool;

/// `regex::Regex::is_match` for a pattern that compiles. Taken on trust: the
/// answer depends on the pattern and the text alone.
#[verifier::external_body]
pub(crate) fn regex_is_match(pattern: &str, text: &str) -> (r: bool)
    requires
        regex_error(pattern@) is None,
    ensures
        r == regex_found(pattern@, text@),
{
    match regex::Regex::new(pattern) {
        Ok(re) => re.is_match(text),
        Err(_) => false,
    }
}

/// A text with the first match of a regular expression replaced.
pub uninterp spec fn regex_first(pattern: Seq<char>, text: Seq<char>, new: Seq<char>) -> Seq<char>;

/// `regex::Regex::replace` for a pattern that compiles: the leftmost match
/// replaced, with `$1` and the like expanded; a text without a match is unchanged.
/// Taken on trust: the result depends on these three texts alone.
#[verifier::external_body]
pub(crate) fn regex_replace(pattern: &str, text: &str, new: &str) -> (out: String)
    requires
        regex_error(pattern@) is None,
    ensures
        out@ == regex_first(pattern@, text@, new@),
        !regex_found(pattern@, text@) ==> out@ == text@,
{
    match regex::Regex::new(pattern) {
        Ok(re) => re.replace(text, new).into_owned(),
        Err(_) => String::new(),
    }
}

/// A text with every match of a regular expression replaced.
pub uninterp spec fn regex_every(pattern: Seq<char>, text: Seq<char>, new: Seq<char>) -> Seq<char>;

/// `regex::Regex::replace_all` for a pattern that compiles: every match replaced,
/// with `$1` and the like expanded; a text without a match is unchanged. Taken on
/// trust: the result depends on these three texts alone.
#[verifier::external_body]
pub(crate) fn regex_replace_all(pattern: &str, text: &str, new: &str) -> (out: String)
    requires
        regex_error(pattern@) is None,
    ensures
        out@ == regex_every(pattern@, text@, new@),
        !regex_found(pattern@, text@) ==> out@ == text@,
{
    match regex::Regex::new(pattern) {
        Ok(re) => re.replace_all(text, new).into_owned(),
        Err(_) => String::new(),
    }
}

/// `ropey`'s text buffer.
#[verifier::external_type_specification]
#[verifier::external_body]
pub struct ExRope(ropey::Rope);

/// The characters that a rope holds.
pub uninterp spec fn rope_chars(r: ropey::Rope) -> Seq<char>;

/// `ropey::Rope::from_str`: a rope that holds the text.
#[verifier::external_body]
pub(crate) fn rope_new(text: &str) -> (r: ropey::Rope)
    ensures
        rope_chars(r) == text@,
{
    ropey::Rope::from_str(text)
}

/// `ropey::Rope::remove`: takes a range of characters out.
#[verifier::external_body]
pub(crate) fn rope_remove(r: &mut ropey::Rope, start: usize, end: usize)
    requires
        start <= end <= rope_chars(*old(r)).len(),
    ensures
        rope_chars(*final(r)) == rope_chars(*old(r)).take(start as int) + rope_chars(
            *old(r),
        ).skip(end as int),
{
    r.remove(start..end)
}

/// `ropey::Rope::insert`: puts a text in at a character position.
#[verifier::external_body]
pub(crate) fn rope_insert(r: &mut ropey::Rope, pos: usize, text: &str)
    requires
        pos <= rope_chars(*old(r)).len(),
    ensures
        rope_chars(*final(r)) == rope_chars(*old(r)).take(pos as int) + text@ + rope_chars(
            *old(r),
        ).skip(pos as int),
{
    r.insert(pos, text)
}

/// `ropey::Rope::slice`: a copy of a range of characters.
#[verifier::external_body]
pub(crate) fn rope_slice(r: &ropey::Rope, start: usize, end: usize) -> (out: String)
    requires
        start <= end <= rope_chars(*r).len(),
    ensures
        out@ == rope_chars(*r).subrange(start as int, end as int),
{
    r.slice(start..end).to_string()
}

/// `ropey::Rope::to_string`: the whole text.
#[verifier::external_body]
pub(crate) fn rope_text(r: &ropey::Rope) -> (out: String)
    ensures
        out@ == rope_chars(*r),
{
    r.to_string()
}

/// A single character that ends a line: line feed, vertical tab, form feed, next
/// line, line separator, paragraph separator.
pub open spec fn is_break(c: char) -> bool {
    c == '\n' || c == '\u{b}' || c == '\u{c}' || c == '\u{85}' || c == '\u{2028}' || c == '\u{2029}'
}

/// How many characters of `s` end a line on their own.
pub open spec fn break_count(s: Seq<char>) -> nat
    decreases s.len(),
{
    if s.len() == 0 {
        0
    } else {
        break_count(s.drop_last()) + (if is_break(s.last()) {
            1nat
        } else {
            0
        })
    }
}

/// The 0-based line of a character in a rope's text.
pub uninterp spec fn rope_line_index(text: Seq<char>, pos: int) -> nat;

/// `ropey::Rope::char_to_line`: the 0-based line of a character position, which is
/// the number of line endings before it. Taken on trust: it depends on the text and
/// the position alone; it is at most the position, and below the largest `usize`,
/// since no text in memory has that many characters; in a text without carriage
/// returns it counts the Unicode line-ending characters before the position.
#[verifier::external_body]
pub(crate) fn rope_line(r: &ropey::Rope, pos: usize) -> (line: usize)
    requires
        pos <= rope_chars(*r).len(),
    ensures
        line == rope_line_index(rope_chars(*r), pos as int),
        line <= pos,
        line < usize::MAX,
        !rope_chars(*r).contains('\r') ==> line == break_count(rope_chars(*r).take(pos as int)),
{
    r.char_to_line(pos)
}

/// The number that std's default hasher gives a text.
pub uninterp spec fn text_number(s: Seq<char>) -> u64;

/// `std::hash::Hash::hash` on a text with a `DefaultHasher` that `new` made, finished.
/// Taken on trust: such hashers are all alike, so the number depends on the text alone.
/// Which number it is, std leaves open.
#[verifier::external_body]
pub(crate) fn text_hash(s: &str) -> (n: u64)
    ensures
        n == text_number(s@),
{
    let mut h = std::collections::hash_map::DefaultHasher::new();
    std::hash::Hash::hash(s, &mut h);
    std::hash::Hasher::finish(&h)
}

/// What `{:?}` makes of a text.
pub uninterp spec fn debug_text(s: Seq<char>) -> Seq<char>;

/// `format!` with `{:?}` on a text: the text in quotes, escaped as std does. Taken on
/// trust: the outcome depends on the text alone.
#[verifier::external_body]
pub(crate) fn debug_format(s: &str) -> (out: String)
    ensures
        out@ == debug_text(s@),
{
    format!("{:?}", s)
}

/// Whether bytes can be continued to valid UTF-8.
pub open spec fn extendable(bytes: Seq<u8>) -> bool {
    exists|more: Seq<u8>| #[trigger] valid_utf8(bytes + more)
}

/// Whether the first `v` bytes are the longest start of `bytes` that is valid UTF-8.
pub open spec fn longest_valid(bytes: Seq<u8>, v: int) -> bool {
    &&& 0 <= v <= bytes.len()
    &&& valid_utf8(bytes.take(v))
    &&& forall|i: int| v < i <= bytes.len() ==> !valid_utf8(#[trigger] bytes.take(i))
}

/// How many bytes the malformed sequence has that begins at the first of `bytes`.
pub uninterp spec fn malformed_len(bytes: Seq<u8>) -> nat;

/// `std::str::from_utf8`, with the places that `Utf8Error` gives: nothing for valid
/// UTF-8; else how many bytes of its start are valid, and the length of the
/// malformed sequence behind them, unless the bytes merely end too early. Taken on
/// trust: `valid_up_to` is the longest valid start; there is no `error_len` exactly
/// when the bytes could still go on to valid UTF-8; and `error_len` depends on the
/// bytes behind the valid start alone, and lies among them.
#[verifier::external_body]
pub(crate) fn utf8_fault(bytes: &[u8]) -> (r: Option<(usize, Option<usize>)>)
    ensures
        r is None <==> valid_utf8(bytes@),
        r matches Some((v, e)) ==> longest_valid(bytes@, v as int) && (e is None <==> extendable(
            bytes@.skip(v as int),
        )),
        r matches Some((v, Some(n))) ==> n == malformed_len(bytes@.skip(v as int)) && 0 < n <= bytes@.len() - v,
{
    match std::str::from_utf8(bytes) {
        Ok(_) => None,
        Err(e) => Some((e.valid_up_to(), e.error_len())),
    }
}

/// `String::from_utf8` for valid UTF-8: the text that these bytes encode.
#[verifier::external_body]
pub(crate) fn utf8_text(bytes: Vec<u8>) -> (out: String)
    requires
        valid_utf8(bytes@),
    ensures
        out@ == decode_utf8(bytes@),
{
    match String::from_utf8(bytes) {
        Ok(s) => s,
        Err(_) => String::new(),
    }
}

/// What `String::from_utf8_lossy` makes of bytes.
pub uninterp spec fn lossy(bytes: Seq<u8>) -> Seq<char>;

/// `String::from_utf8_lossy`: the text that the bytes encode, with replacement
/// characters where they are no UTF-8. Taken on trust: the outcome depends on the
/// bytes alone, and valid UTF-8 is decoded as it is.
#[verifier::external_body]
pub(crate) fn lossy_text(bytes: &[u8]) -> (out: String)
    ensures
        out@ == lossy(bytes@),
        valid_utf8(bytes@) ==> out@ == decode_utf8(bytes@),
{
    String::from_utf8_lossy(bytes).into_owned()
}

/// The error that a search pattern gives on machines with pointers of so many bits, if
/// it does not compile.
pub uninterp spec fn search_refusal(
    pattern: Seq<char>,
    insensitive: bool,
    pointer_bits: nat,
) -> Option<Seq<char>>;

/// The error that a search pattern gives on this machine, if it does not compile.
pub open spec fn search_error(pattern: Seq<char>, insensitive: bool) -> Option<Seq<char>> {
    search_refusal(pattern, insensitive, usize::BITS as nat)
}

/// `grep_regex::RegexMatcherBuilder::build` with `case_insensitive`: whether a
/// search pattern compiles, and the error's text when it does not. Taken on trust:
/// the outcome depends on the pattern, the flag and the width of a pointer alone (a
/// pattern is refused by the memory that its program would take).
#[verifier::external_body]
pub(crate) fn search_check(pattern: &str, insensitive: bool) -> (r: Option<String>)
    ensures
        match r {
            Some(e) => search_refusal(pattern@, insensitive, usize::BITS as nat) == Some(e@),
            None => search_refusal(pattern@, insensitive, usize::BITS as nat) is None,
        },
{
    match grep_regex::RegexMatcherBuilder::new().case_insensitive(insensitive).build(pattern) {
        Ok(_) => None,
        Err(e) => Some(e.to_string()),
    }
}

/// How long a glob may be: a longer one could exceed the tables of the matcher.
pub const GLOB_LIMIT: usize = 0x1000_0000;

/// How deep the braces of a glob may be nested: deeper ones could exceed the stack of the
/// matcher, whose regular expressions are refused from half of that depth on.
pub const GLOB_NESTING: usize = 500;

/// What the next character of a glob stands for.
#[derive(Debug, Clone, Copy, PartialEq, Eq, Structural)]
pub enum GlobState {
    /// A character on its own.
    Plain,
    /// Itself, behind a backslash.
    Escaped,
    /// The beginning of a class, which a mark may negate.
    ClassStart,
    /// The first character of a class, be it a closing bracket.
    ClassFirst,
    /// A character of a class, or its end.
    Class,
}

/// What the next character stands for once one more was read.
pub open spec fn glob_next(state: GlobState, c: char, backslash_separates: bool) -> GlobState {
    match state {
        GlobState::Plain => if c == '[' {
            GlobState::ClassStart
        } else if c == '\\' && !backslash_separates {
            GlobState::Escaped
        } else {
            GlobState::Plain
        },
        GlobState::Escaped => GlobState::Plain,
        GlobState::ClassStart => if c == '!' || c == '^' {
            GlobState::ClassFirst
        } else {
            GlobState::Class
        },
        GlobState::ClassFirst => GlobState::Class,
        GlobState::Class => if c == ']' {
            GlobState::Plain
        } else {
            GlobState::Class
        },
    }
}

/// What the character behind a glob would stand for.
pub open spec fn glob_state(glob: Seq<char>, backslash_separates: bool) -> GlobState
    decreases glob.len(),
{
    if glob.len() == 0 {
        GlobState::Plain
    } else {
        glob_next(
            glob_state(glob.drop_last(), backslash_separates),
            glob.last(),
            backslash_separates,
        )
    }
}

/// How many braces are open at the end of a glob. Those in a class and behind a backslash
/// stand for themselves.
pub open spec fn open_braces(glob: Seq<char>, backslash_separates: bool) -> nat
    decreases glob.len(),
{
    if glob.len() == 0 {
        0
    } else {
        let front = glob.drop_last();
        let depth = open_braces(front, backslash_separates);
        if glob_state(front, backslash_separates) != GlobState::Plain {
            depth
        } else if glob.last() == '{' {
            depth + 1
        } else if glob.last() == '}' && depth > 0 {
            (depth - 1) as nat
        } else {
            depth
        }
    }
}

/// Whether a glob can be handed to the matcher: it is not too long, and its braces are
/// nowhere nested too deep.
pub open spec fn fits_matcher(glob: Seq<char>, backslash_separates: bool) -> bool {
    &&& glob.len() < GLOB_LIMIT
    &&& forall|i: int|
        0 <= i <= glob.len() ==> open_braces(#[trigger] glob.take(i), backslash_separates)
            <= GLOB_NESTING
}

/// The system that the program runs on. Only `system` makes a value of it.
pub(crate) struct System {
    backslash: bool,
}

impl System {
    /// Whether a backslash separates the names of a path on this system.
    pub(crate) closed spec fn separates(&self) -> bool {
        self.backslash
    }

    /// Whether a backslash separates the names of a path on this system.
    pub(crate) fn is_separating(&self) -> (r: bool)
        ensures
            r == self.separates(),
    {
        self.backslash
    }
}

/// `std::path::is_separator` on a backslash. Nothing is claimed of the result, which the
/// system decides.
#[verifier::external_body]
pub(crate) fn system() -> System {
    System { backslash: std::path::is_separator('\\') }
}

/// The error that a glob gives, if it does not compile, on machines with pointers of so
/// many bits and on systems where a backslash separates names or does not.
pub uninterp spec fn glob_refusal(
    pattern: Seq<char>,
    pointer_bits: nat,
    backslash_separates: bool,
) -> Option<Seq<char>>;

/// The error that a glob gives on this machine, if it does not compile.
pub open spec fn glob_error(pattern: Seq<char>, backslash_separates: bool) -> Option<Seq<char>> {
    glob_refusal(pattern, usize::BITS as nat, backslash_separates)
}

/// `globset::GlobBuilder::build` with `literal_separator`, and
/// `globset::GlobSetBuilder::build` on the outcome: whether a glob compiles, and the
/// error's text when it does not. Taken on trust: the outcome depends on the glob, on the
/// width of a pointer (a glob is refused by the memory that its program would take) and on
/// whether a backslash separates names on the system alone.
#[verifier::external_body]
pub(crate) fn glob_check(pattern: &str, on: &System) -> (r: Option<String>)
    requires
        fits_matcher(pattern@, on.separates()),
    ensures
        match r {
            Some(e) => glob_refusal(pattern@, usize::BITS as nat, on.separates()) == Some(e@),
            None => glob_refusal(pattern@, usize::BITS as nat, on.separates()) is None,
        },
{
    let glob = globset::GlobBuilder::new(pattern).literal_separator(true).build();
    match glob.and_then(|g| globset::GlobSetBuilder::new().add(g).build()) {
        Ok(_) => None,
        Err(e) => Some(e.to_string()),
    }
}

/// Whether a path matches a glob, on systems where a backslash separates names or does not.
pub uninterp spec fn glob_found(
    pattern: Seq<char>,
    path: Seq<char>,
    backslash_separates: bool,
) -> bool;

/// `globset::GlobSet::is_match` for one glob with `literal_separator`; false for a
/// glob that does not compile. Taken on trust: the answer depends on the glob, on the
/// path, on the width of a pointer as far as the glob compiles, and on whether a backslash
/// separates names on the system alone.
#[verifier::external_body]
pub(crate) fn glob_is_match(pattern: &str, path: &str, on: &System) -> (r: bool)
    requires
        fits_matcher(pattern@, on.separates()),
    ensures
        r == (glob_refusal(pattern@, usize::BITS as nat, on.separates()) is None && glob_found(
            pattern@,
            path@,
            on.separates(),
        )),
{
    let glob = globset::GlobBuilder::new(pattern).literal_separator(true).build();
    match glob.and_then(|g| globset::GlobSetBuilder::new().add(g).build()) {
        Ok(set) => set.is_match(path),
        Err(_) => false,
    }
}

/// The bytes that every PNG begins with.
pub open spec fn png_signature() -> Seq<u8> {
    seq![0x89u8, 0x50, 0x4e, 0x47, 0x0d, 0x0a, 0x1a, 0x0a]
}

/// The number in two bytes of a TIFF.
pub open spec fn short_at(raw: Seq<u8>, i: int, big_endian: bool) -> int {
    if big_endian {
        0x100 * raw[i] + raw[i + 1]
    } else {
        raw[i] + 0x100 * raw[i + 1]
    }
}

/// The number in four bytes of a TIFF.
pub open spec fn long_at(raw: Seq<u8>, i: int, big_endian: bool) -> int {
    if big_endian {
        0x1_0000 * short_at(raw, i, true) + short_at(raw, i + 2, true)
    } else {
        short_at(raw, i, false) + 0x1_0000 * short_at(raw, i + 2, false)
    }
}

/// Entry `k` of the directory at `dir` of a TIFF keeps to what `plain_tiff` asks for: it
/// lists no tiles, keeps the samples of a pixel together, and names no compression but
/// LZW and PackBits.
pub open spec fn plain_entry(raw: Seq<u8>, dir: int, k: int, big_endian: bool) -> bool {
    let at = dir + 2 + 12 * k;
    let tag = short_at(raw, at, big_endian);
    let one_short = short_at(raw, at + 2, big_endian) == 3 && long_at(raw, at + 4, big_endian) == 1;
    let value = short_at(raw, at + 8, big_endian);
    &&& tag != 324 && tag != 325
    &&& tag == 284 ==> one_short && value == 1
    &&& tag == 259 ==> one_short && (value == 1 || value == 5 || value == 32773)
}

/// A TIFF whose first directory lies in the file, and whose picture is stored in strips of
/// whole pixels.
pub open spec fn plain_tiff(raw: Seq<u8>) -> bool {
    let big_endian = raw[0] == 0x4d;
    let dir = long_at(raw, 4, big_endian);
    let entries = short_at(raw, dir, big_endian);
    &&& raw.len() >= 8
    &&& raw.take(4) == seq![0x49u8, 0x49, 0x2a, 0x00] || raw.take(4) == seq![
        0x4du8,
        0x4d,
        0x00,
        0x2a,
    ]
    &&& dir + 2 <= raw.len()
    &&& dir + 2 + 12 * entries <= raw.len()
    &&& forall|k: int| 0 <= k < entries ==> #[trigger] plain_entry(raw, dir, k, big_endian)
}

/// Whether an image can be handed to the decoders: by its first bytes it is a GIF or a BMP,
/// or it is a plain TIFF.
pub open spec fn decodable(raw: Seq<u8>) -> bool {
    ||| raw.len() >= 6 && raw.take(6) == seq![0x47u8, 0x49, 0x46, 0x38, 0x37, 0x61]
    ||| raw.len() >= 6 && raw.take(6) == seq![0x47u8, 0x49, 0x46, 0x38, 0x39, 0x61]
    ||| raw.len() >= 2 && raw.take(2) == seq![0x42u8, 0x4d]
    ||| plain_tiff(raw)
}

/// `image::ImageReader` with a guessed format, and `DynamicImage::write_to` as PNG:
/// the image as a PNG, or nothing when it cannot be read or written. Taken on trust: a
/// PNG begins with its signature, and the built-in decoders return on every image that
/// `decodable` admits. They are not called on others: that of PNG panics on a palette whose
/// length is no multiple of three, that of TIFF on some counts of strips in planes and of
/// tiles, and of those of JPEG and WebP it is not settled that they return on every damaged
/// file. Nothing is said of when it succeeds, nor of the pixels: both rest on the memory of
/// the machine, and on the formats that the process has registered with `image::hooks`,
/// which come before the built-in ones.
#[verifier::external_body]
pub(crate) fn png_convert(raw: &[u8]) -> (r: Option<Vec<u8>>)
    requires
        decodable(raw@),
    ensures
        r matches Some(png) ==> png_signature().is_prefix_of(png@),
{
    let reader = image::ImageReader::new(std::io::Cursor::new(raw)).with_guessed_format().ok()?;
    let mut out = std::io::Cursor::new(Vec::new());
    reader.decode().ok()?.write_to(&mut out, image::ImageFormat::Png).ok()?;
    Some(out.into_inner())
}

} // verus!
