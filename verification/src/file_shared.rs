//! What the file tools share: limits, the content fingerprint, the newline
//! view, and the diffs they report.

use vstd::prelude::*;

use crate::lines::nl;
use crate::numbered::{lemma_line_count_short, line_count};
use crate::outside::{
    added_total, first_change, hex_encode, hex_text, line_diff, line_steps, removed_total, sha256,
    sha256_digest, unified, unified_text, DiffStep,
};
use crate::search::{at, contains, has_char, lemma_replaced_absent, lemma_replaced_no_longer, occurs, replace, replaced, same};
use crate::text::{chars_of, string_of};

verus! {

pub const READ_MAX_LINES: usize = 400;

pub const READ_MAX_CHARS: usize = 24_000;

pub const READ_MAX_CONTEXT: usize = 100;

pub const CONTENT_CAP: usize = 65_536;

pub const CANDIDATE_MAX: usize = 3;

pub const SNIPPET_MAX: usize = 120;

/// The fingerprint of a text: SHA-256 of its UTF-8 bytes, in hexadecimal.
pub open spec fn hash_of(content: Seq<char>) -> Seq<char> {
    hex_text(sha256_digest(vstd::utf8::encode_utf8(content)))
}

/// Stable content fingerprint, reported by a read and accepted as the
/// precondition of a write.
pub fn content_hash(content: &str) -> (h: String)
    ensures
        h@ == hash_of(content@),
        h@.len() == 64,
{
    let digest: Vec<u8> = sha256(content.as_bytes());
    hex_encode(digest.as_slice())
}

/// The newline view of a text: `\r\n` becomes `\n`, and so does a lone `\r`.
pub open spec fn lf_view(content: Seq<char>) -> Seq<char> {
    replaced(replaced(content, crlf(), nl()), cr(), nl())
}

/// The newline of a CRLF file.
pub open spec fn crlf() -> Seq<char> {
    seq!['\r', '\n']
}

/// A carriage return.
pub open spec fn cr() -> Seq<char> {
    seq!['\r']
}

/// The text holds a carriage return, so its newline view differs from it.
pub open spec fn has_cr(content: Seq<char>) -> bool {
    content.contains('\r')
}

/// `s` with every newline written as CRLF.
pub open spec fn with_crlf(s: Seq<char>) -> Seq<char> {
    replaced(s, nl(), crlf())
}

/// A newline view holds no carriage return.
pub proof fn newline_view_has_no_cr(content: Seq<char>)
    ensures
        !has_cr(lf_view(content)),
{
    lemma_no_cr_left(replaced(content, crlf(), nl()));
}

proof fn lemma_no_cr_left(s: Seq<char>)
    ensures
        !replaced(s, cr(), nl()).contains('\r'),
    decreases s.len(),
{
    if s.len() > 0 {
        let t = s.skip(1);
        lemma_no_cr_left(t);
        let rest = replaced(t, cr(), nl());
        assert(s.subrange(0, 1) =~= seq![s[0]]);
        let whole = replaced(s, cr(), nl());
        if s[0] == '\r' {
            assert(at(s, cr(), 0));
            assert(whole == nl() + rest);
        } else {
            assert(s.subrange(0, 1)[0] != cr()[0]);
            assert(whole == seq![s[0]] + rest);
        }
        if whole.contains('\r') {
            let k = choose|k: int| 0 <= k < whole.len() && whole[k] == '\r';
            assert(k > 0);
            assert(rest[k - 1] == '\r');
        }
    }
}

/// A text without carriage returns is its own newline view.
pub proof fn newline_view_of_plain_text(content: Seq<char>)
    requires
        !has_cr(content),
    ensures
        lf_view(content) == content,
{
    if occurs(content, crlf()) {
        let i = choose|i: int| at(content, crlf(), i);
        assert(content.subrange(i, i + crlf().len())[0] == crlf()[0]);
        assert(content[i] == '\r');
    }
    lemma_replaced_absent(content, crlf(), nl());
    if occurs(content, cr()) {
        let i = choose|i: int| at(content, cr(), i);
        assert(content.subrange(i, i + cr().len())[0] == cr()[0]);
        assert(content[i] == '\r');
    }
    lemma_replaced_absent(content, cr(), nl());
}

/// Taking the newline view twice changes nothing more.
pub proof fn newline_view_is_stable(content: Seq<char>)
    ensures
        lf_view(lf_view(content)) == lf_view(content),
{
    newline_view_has_no_cr(content);
    newline_view_of_plain_text(lf_view(content));
}

/// Writing a newline view back with CRLF and viewing it again gives it back.
pub proof fn newline_view_undoes_crlf(s: Seq<char>)
    requires
        !has_cr(s),
    ensures
        lf_view(with_crlf(s)) == s,
{
    lemma_crlf_round(s);
    if occurs(s, cr()) {
        let i = choose|i: int| at(s, cr(), i);
        assert(s.subrange(i, i + cr().len())[0] == cr()[0]);
        assert(s[i] == '\r');
    }
    lemma_replaced_absent(s, cr(), nl());
}

proof fn lemma_crlf_round(s: Seq<char>)
    requires
        !has_cr(s),
    ensures
        replaced(with_crlf(s), crlf(), nl()) == s,
    decreases s.len(),
{
    if s.len() == 0 {
        assert(with_crlf(s) =~= s);
    } else {
        let t = s.skip(1);
        assert forall|k: int| 0 <= k < t.len() implies t[k] != '\r' by {
            assert(t[k] == s[k + 1]);
        }
        lemma_crlf_round(t);
        let w = with_crlf(s);
        let wt = with_crlf(t);
        assert(s.subrange(0, 1) =~= seq![s[0]]);
        if s[0] == '\n' {
            assert(at(s, nl(), 0));
            assert(w == crlf() + wt);
            assert(w.subrange(0, 2) =~= crlf());
            assert(at(w, crlf(), 0));
            assert(w.skip(2) =~= wt);
            assert(nl() + t =~= s);
        } else {
            assert(s.subrange(0, 1)[0] != nl()[0]);
            assert(w == seq![s[0]] + wt);
            assert(w.skip(1) =~= wt);
            assert(s[0] != '\r');
            if at(w, crlf(), 0) {
                assert(w.subrange(0, 2)[0] == crlf()[0]);
            }
            assert(seq![s[0]] + t =~= s);
            if w.len() < 2 {
                assert(wt.len() == 0);
                lemma_crlf_longer(t);
                assert(w =~= s);
            }
        }
    }
}

proof fn lemma_crlf_longer(s: Seq<char>)
    ensures
        with_crlf(s).len() >= s.len(),
    decreases s.len(),
{
    if s.len() > 0 {
        lemma_crlf_longer(s.skip(1));
    }
}

/// The newline view on characters, with whether the text held a `\r`.
pub fn normalize_chars(content: &[char]) -> (r: (Vec<char>, bool))
    ensures
        r.0@ == lf_view(content@),
        r.1 == has_cr(content@),
{
    let crlf_chars: Vec<char> = vec!['\r', '\n'];
    let lf_chars: Vec<char> = vec!['\n'];
    let cr_chars: Vec<char> = vec!['\r'];
    proof {
        assert(crlf_chars@ =~= crlf());
        assert(lf_chars@ =~= nl());
        assert(cr_chars@ =~= cr());
    }
    let once: Vec<char> = replace(content, crlf_chars.as_slice(), lf_chars.as_slice());
    let twice: Vec<char> = replace(once.as_slice(), cr_chars.as_slice(), lf_chars.as_slice());
    (twice, has_char(content, '\r'))
}

/// Writes every newline as CRLF.
pub fn to_crlf(content: &str) -> (out: String)
    ensures
        out@ == with_crlf(content@),
{
    let c: Vec<char> = chars_of(content);
    let crlf_chars: Vec<char> = vec!['\r', '\n'];
    let lf_chars: Vec<char> = vec!['\n'];
    proof {
        assert(crlf_chars@ =~= crlf());
        assert(lf_chars@ =~= nl());
    }
    let r: Vec<char> = replace(c.as_slice(), lf_chars.as_slice(), crlf_chars.as_slice());
    string_of(r.as_slice())
}

/// Normalizes newlines to `\n`; returns the text and whether it held a `\r`.
pub fn normalize_newlines(content: &str) -> (r: (String, bool))
    ensures
        r.0@ == lf_view(content@),
        r.1 == has_cr(content@),
{
    let c: Vec<char> = chars_of(content);
    let r: (Vec<char>, bool) = normalize_chars(c.as_slice());
    (string_of(r.0.as_slice()), r.1)
}

proof fn lemma_inner_step(s: Seq<char>)
    requires
        s.len() > 0,
    ensures
        ({
            let pair = s[0] == '\r' && s.len() > 1 && s[1] == '\n';
            replaced(s, crlf(), nl()) == seq![if pair { '\n' } else { s[0] }] + replaced(
                s.skip(if pair { 2int } else { 1 }),
                crlf(),
                nl(),
            )
        }),
{
    let pair = s[0] == '\r' && s.len() > 1 && s[1] == '\n';
    if s.len() < 2 {
        assert(s.skip(1) =~= Seq::<char>::empty());
        assert(s =~= seq![s[0]] + s.skip(1));
    } else {
        assert(s.subrange(0, 2).len() == 2);
        assert(s.subrange(0, 2)[0] == s[0] && s.subrange(0, 2)[1] == s[1]);
        if pair {
            assert(s.subrange(0, 2) =~= crlf());
        } else if at(s, crlf(), 0) {
            assert(crlf()[0] == '\r' && crlf()[1] == '\n');
        }
    }
}

/// The newline view, one line break or character at a time.
pub proof fn newline_view_step(s: Seq<char>)
    ensures
        s.len() == 0 ==> lf_view(s) == Seq::<char>::empty(),
        s.len() > 0 ==> ({
            let pair = s[0] == '\r' && s.len() > 1 && s[1] == '\n';
            lf_view(s) == seq![if s[0] == '\r' { '\n' } else { s[0] }] + lf_view(
                s.skip(if pair { 2int } else { 1 }),
            )
        }),
{
    if s.len() > 0 {
        lemma_inner_step(s);
        let pair = s[0] == '\r' && s.len() > 1 && s[1] == '\n';
        let x = if pair { '\n' } else { s[0] };
        let t = replaced(s.skip(if pair { 2int } else { 1 }), crlf(), nl());
        let all = seq![x] + t;
        assert(all.skip(1) =~= t);
        assert(all.subrange(0, 1) =~= seq![x]);
        if x == '\r' {
            assert(at(all, cr(), 0));
        } else if at(all, cr(), 0) {
            assert(all.subrange(0, 1)[0] == cr()[0]);
        }
    }
}

/// The newline view goes piece by piece, wherever no line break is cut in two.
pub proof fn newline_view_of_pieces(a: Seq<char>, b: Seq<char>)
    requires
        !(a.len() > 0 && b.len() > 0 && a.last() == '\r' && b[0] == '\n'),
    ensures
        lf_view(a + b) == lf_view(a) + lf_view(b),
    decreases a.len(),
{
    newline_view_step(a);
    if a.len() == 0 {
        assert(a + b =~= b);
        assert(lf_view(a) + lf_view(b) =~= lf_view(b));
    } else {
        newline_view_step(a + b);
        let pair = a[0] == '\r' && a.len() > 1 && a[1] == '\n';
        let k: int = if pair { 2 } else { 1 };
        assert((a + b)[0] == a[0]);
        if a.len() > 1 {
            assert((a + b)[1] == a[1]);
        } else if b.len() > 0 {
            assert((a + b)[1] == b[0]);
        }
        assert((a + b).skip(k) =~= a.skip(k) + b);
        if a.skip(k).len() > 0 {
            assert(a.skip(k).last() == a.last());
        }
        newline_view_of_pieces(a.skip(k), b);
        let c = seq![if a[0] == '\r' { '\n' } else { a[0] }];
        assert(c + (lf_view(a.skip(k)) + lf_view(b)) =~= (c + lf_view(a.skip(k))) + lf_view(b));
    }
}

/// The newline view of a text is no longer than the text.
pub proof fn lemma_newline_view_no_longer(content: Seq<char>)
    ensures
        lf_view(content).len() <= content.len(),
{
    lemma_replaced_no_longer(content, crlf(), nl());
    lemma_replaced_no_longer(replaced(content, crlf(), nl()), cr(), nl());
}

/// The unified diff of two file contents, empty when they are equal.
pub open spec fn diff_text(before: Seq<char>, after: Seq<char>, path: Seq<char>) -> Seq<char> {
    if before == after {
        Seq::<char>::empty()
    } else {
        unified_text(before, after, 3, "a/"@ + path, "b/"@ + path)
    }
}

/// Unified diff between two file contents, with three lines of context.
pub fn unified_diff(before: &str, after: &str, path: &str) -> (out: String)
    ensures
        out@ == diff_text(before@, after@, path@),
{
    let b: Vec<char> = chars_of(before);
    let a: Vec<char> = chars_of(after);
    if same(b.as_slice(), a.as_slice()) {
        return String::new();
    }
    let mut old_name: String = "a/".to_owned();
    old_name.append(path);
    let mut new_name: String = "b/".to_owned();
    new_name.append(path);
    unified(before, after, 3, old_name.as_str(), new_name.as_str())
}

/// What a diff of two texts amounts to: lines added, lines removed, and the
/// 1-based line of the first change in the old text (1 when nothing changed).
/// The counts are 32 bits wide, so the texts have no more lines than that.
pub fn diff_stats_between(before: &str, after: &str) -> (r: (u32, u32, u32))
    requires
        line_count(lf_view(before@)) < u32::MAX,
        line_count(lf_view(after@)) <= u32::MAX,
    ensures
        r.0 == added_total(line_steps(before@, after@)),
        r.1 == removed_total(line_steps(before@, after@)),
        r.2 == first_change(line_steps(before@, after@)),
{
    let steps: Vec<DiffStep> = line_diff(before, after);
    stats_of_steps(steps.as_slice())
}

/// Adds up the changes of a diff.
pub fn stats_of_steps(steps: &[DiffStep]) -> (r: (u32, u32, u32))
    requires
        added_total(steps@) <= u32::MAX,
        removed_total(steps@) <= u32::MAX,
        first_change(steps@) <= u32::MAX,
    ensures
        r.0 == added_total(steps@),
        r.1 == removed_total(steps@),
        r.2 == first_change(steps@),
{
    let (added, removed, first_line): (u128, u128, u128) = counts_of_steps(steps);
    (added as u32, removed as u32, first_line as u32)
}

/// What a diff of two texts amounts to, however long they are.
pub(crate) fn diff_counts(before: &str, after: &str) -> (r: (u128, u128, u128))
    ensures
        r.0 == added_total(line_steps(before@, after@)),
        r.1 == removed_total(line_steps(before@, after@)),
        r.2 == first_change(line_steps(before@, after@)),
        r.0 <= after@.len(),
        r.1 <= before@.len(),
{
    let steps: Vec<DiffStep> = line_diff(before, after);
    proof {
        lemma_line_count_short(lf_view(before@));
        lemma_line_count_short(lf_view(after@));
        lemma_newline_view_no_longer(before@);
        lemma_newline_view_no_longer(after@);
    }
    counts_of_steps(steps.as_slice())
}

fn counts_of_steps(steps: &[DiffStep]) -> (r: (u128, u128, u128))
    ensures
        r.0 == added_total(steps@),
        r.1 == removed_total(steps@),
        r.2 == first_change(steps@),
{
    let mut added: u128 = 0;
    let mut removed: u128 = 0;
    let mut first_line: u128 = 1;
    let mut got_change: bool = false;
    let mut i: usize = 0;
    proof {
        assert(steps@.take(0) =~= Seq::<DiffStep>::empty());
        assert(steps@.skip(0) =~= steps@);
    }
    while i < steps.len()
        invariant
            i <= steps@.len(),
            added <= 0xffff_ffff_ffff_ffff * i,
            removed <= 0xffff_ffff_ffff_ffff * i,
            added == added_total(steps@.take(i as int)),
            removed == removed_total(steps@.take(i as int)),
            got_change ==> first_line == first_change(steps@),
            !got_change ==> first_line == 1 && first_change(steps@) == first_change(
                steps@.skip(i as int),
            ),
        decreases steps@.len() - i,
    {
        let step: DiffStep = steps[i];
        proof {
            let t = steps@.take(i + 1);
            assert(t.drop_last() =~= steps@.take(i as int));
            assert(t.last() == step);
            assert(steps@.skip(i as int).skip(1) =~= steps@.skip(i + 1));
            assert(steps@.skip(i as int)[0] == step);
        }
        if !step.equal {
            if !got_change {
                first_line = step.old_start as u128 + 1;
                got_change = true;
            }
            added = added + step.new_len as u128;
            removed = removed + step.old_len as u128;
        }
        i = i + 1;
    }
    proof {
        assert(steps@.take(steps@.len() as int) =~= steps@);
    }
    (added, removed, first_line)
}

/// Whether a read error says that the bytes are no UTF-8 text.
pub open spec fn is_binary_error(err: Seq<char>) -> bool {
    occurs(err, "valid UTF-8"@) || occurs(err, "utf8"@) || occurs(err, "utf-8"@) || occurs(
        err,
        "UTF-8"@,
    )
}

/// Whether a read error says that the bytes are no UTF-8 text.
pub fn is_binary_read_error(err: &str) -> (r: bool)
    ensures
        r == is_binary_error(err@),
{
    let e: Vec<char> = chars_of(err);
    contains(e.as_slice(), chars_of("valid UTF-8").as_slice()) || contains(
        e.as_slice(),
        chars_of("utf8").as_slice(),
    ) || contains(e.as_slice(), chars_of("utf-8").as_slice()) || contains(
        e.as_slice(),
        chars_of("UTF-8").as_slice(),
    )
}

/// Why a guarded write is refused: the fingerprint it named and the real one.
pub struct StaleFile {
    pub expected: String,
    pub actual: String,
}

/// Refuses a change based on a stale read. An absent or empty fingerprint asks
/// for no check.
pub fn verify_expected_hash(content: &str, expected: Option<&str>) -> (r: Result<(), StaleFile>)
    ensures
        r is Ok <==> (expected is None || expected->0@.len() == 0 || expected->0@ == hash_of(
            content@,
        )),
        r matches Err(e) ==> expected is Some && e.expected@ == expected->0@ && e.actual@ == hash_of(
            content@,
        ),
{
    match expected {
        None => Ok(()),
        Some(h) => {
            if h.is_empty() {
                return Ok(());
            }
            let actual: String = content_hash(content);
            let a: Vec<char> = chars_of(actual.as_str());
            let e: Vec<char> = chars_of(h);
            if same(a.as_slice(), e.as_slice()) {
                Ok(())
            } else {
                Err(StaleFile { expected: h.to_owned(), actual })
            }
        },
    }
}

} // verus!
