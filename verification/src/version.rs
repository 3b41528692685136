//! Versions of the tools that produce indexes.
//!
//! An index is only as current as the tool that wrote it, so a version is
//! recorded for each: comparing a stored record with the current tools tells
//! which indexes are stale. A tool that cannot report a version is no error;
//! its version is recorded as unknown, which reads as "assume stale".

use crate::text;
use vstd::prelude::*;

verus! {

/// The version of this program, and of the companions that it produces.
pub const VERSION: &'static str = "0.1.0";

/// The first line that is not blank, without white space at its ends.
pub open spec fn first_line(lines: Seq<Seq<char>>) -> Option<Seq<char>>
    decreases lines.len(),
{
    if lines.len() == 0 {
        None
    } else if text::trimmed(lines[0]).len() > 0 {
        Some(text::trimmed(lines[0]))
    } else {
        first_line(lines.skip(1))
    }
}

/// What stands before the first white space.
pub open spec fn before_space(s: Seq<char>) -> Seq<char>
    decreases s.len(),
{
    if s.len() == 0 || text::white_space(s[0]) {
        Seq::empty()
    } else {
        seq![s[0]] + before_space(s.skip(1))
    }
}

/// A text without a leading `v`.
pub open spec fn without_v(s: Seq<char>) -> Seq<char> {
    match text::after_prefix(s, "v"@) {
        Some(rest) => rest,
        None => s,
    }
}

/// Whether a text starts with a digit, as every version does.
pub open spec fn starts_with_digit(s: Seq<char>) -> bool {
    s.len() > 0 && '0' <= s[0] <= '9'
}

/// The version in a line that may start with the tool's name: its first word,
/// without a leading `v`.
pub open spec fn version_in_line(binary: Seq<char>, line: Seq<char>) -> Option<Seq<char>> {
    let rest = match text::after_prefix(line, binary) {
        Some(rest) => rest,
        None => line,
    };
    let version = without_v(before_space(text::trimmed_start(rest)));
    if starts_with_digit(version) {
        Some(version)
    } else {
        None
    }
}

/// The version that a tool reports in `output`: that of its first line that is
/// not blank.
pub open spec fn reported_version(binary: Seq<char>, output: Seq<char>) -> Option<Seq<char>> {
    match first_line(text::lines_of(output)) {
        Some(line) => version_in_line(binary, line),
        None => None,
    }
}

/// The first line that is not blank, without white space at its ends.
fn find_line<'a>(lines: &Vec<&'a [char]>) -> (r: Option<&'a [char]>)
    ensures
        text::opt_slice_view(r) == first_line(text::slices_view(lines@)),
{
    let ghost all = text::slices_view(lines@);
    let mut i: usize = 0;
    assert(all.skip(0) =~= all);
    while i < lines.len()
        invariant
            0 <= i <= lines@.len(),
            all == text::slices_view(lines@),
            first_line(all) == first_line(all.skip(i as int)),
        decreases lines.len() - i,
    {
        assert(all.skip(i as int)[0] == lines@[i as int]@);
        assert(all.skip(i as int).skip(1) =~= all.skip(i + 1));
        let line = text::trim(lines[i]);
        if line.len() > 0 {
            return Some(line);
        }
        i += 1;
    }
    None
}

/// What stands before the first white space.
fn first_word<'a>(s: &'a [char]) -> (r: &'a [char])
    ensures
        r@ == before_space(s@),
{
    let mut n: usize = 0;
    assert(s@.skip(0) =~= s@);
    assert(s@.take(0) + before_space(s@.skip(0)) =~= before_space(s@));
    while n < s.len() && !text::is_white_space(s[n])
        invariant
            0 <= n <= s@.len(),
            s@.take(n as int) + before_space(s@.skip(n as int)) =~= before_space(s@),
        decreases s.len() - n,
    {
        assert(s@.skip(n as int).skip(1) =~= s@.skip(n + 1));
        assert(s@.take(n + 1) =~= s@.take(n as int).push(s@[n as int]));
        n += 1;
    }
    let word = &s[0..n];
    assert(word@ =~= s@.take(n as int));
    assert(word@ =~= before_space(s@));
    word
}

/// Normalizes the `--version` output of a tool into a bare version.
///
/// Tools disagree on the shape: `rust-analyzer 1.95.0`, a bare `0.6.6`,
/// `v0.2.7`. A leading tool name and a `v` are dropped, and so is what follows
/// the version, so that the recorded values are comparable across tools.
/// Output that holds nothing like a version, such as a usage message, gives
/// none.
pub fn normalize(binary: &str, output: &str) -> (r: Option<String>)
    ensures
        text::opt_view(r) == reported_version(binary@, output@),
{
    let chars = text::chars_of(output);
    let lines = text::lines(&chars);
    let line = match find_line(&lines) {
        Some(line) => line,
        None => {
            return None;
        },
    };
    let rest = match text::strip_prefix(line, binary) {
        Some(rest) => rest,
        None => line,
    };
    let word = first_word(text::trim_start(rest));
    let version = match text::strip_prefix(word, "v") {
        Some(version) => version,
        None => word,
    };
    if version.len() > 0 && '0' <= version[0] && version[0] <= '9' {
        Some(text::string_of(version))
    } else {
        None
    }
}

/// A release tag without its leading `v`, so that it is comparable with what
/// a binary reports.
pub fn strip_tag_prefix(tag: &str) -> (r: String)
    ensures
        r@ == without_v(tag@),
{
    let chars = text::chars_of(tag);
    match text::strip_prefix(&chars, "v") {
        Some(rest) => text::string_of(rest),
        None => tag.to_string(),
    }
}

/// The version of a tool on the host, from what a `--version` run of it
/// printed and whether that run succeeded. Some tools print their version to
/// stderr; either will do.
pub fn host_version(binary: &str, success: bool, stdout: &str, stderr: &str) -> (r: Option<String>)
    ensures
        text::opt_view(r) == (if success {
            text::or_else(
                reported_version(binary@, stdout@),
                reported_version(binary@, stderr@),
            )
        } else {
            None
        }),
{
    if !success {
        return None;
    }
    match normalize(binary, stdout) {
        Some(version) => Some(version),
        None => normalize(binary, stderr),
    }
}

/// The version of the companions: they are part of this program, so it is
/// this program's own.
pub fn augment_version() -> (r: Option<String>)
    ensures
        text::opt_view(r) == Some(VERSION@),
{
    Some(VERSION.to_string())
}

/// Whether a text holds no white space.
pub open spec fn is_word(s: Seq<char>) -> bool {
    forall|i: int| 0 <= i < s.len() ==> !text::white_space(#[trigger] s[i])
}

/// The first word holds no white space.
proof fn lemma_before_space(s: Seq<char>)
    ensures
        is_word(before_space(s)),
    decreases s.len(),
{
    if s.len() > 0 && !text::white_space(s[0]) {
        lemma_before_space(s.skip(1));
        let tail = before_space(s.skip(1));
        assert forall|i: int| 0 <= i < before_space(s).len() implies !text::white_space(
            #[trigger] before_space(s)[i],
        ) by {
            if i > 0 {
                assert(before_space(s)[i] == tail[i - 1]);
            }
        }
    }
}

/// Every version that is recorded starts with a digit and is one word.
pub proof fn law_version_shape(binary: Seq<char>, output: Seq<char>)
    ensures
        reported_version(binary, output) matches Some(v) ==> starts_with_digit(v) && is_word(v),
{
    if let Some(line) = first_line(text::lines_of(output)) {
        let rest = match text::after_prefix(line, binary) {
            Some(rest) => rest,
            None => line,
        };
        let word = before_space(text::trimmed_start(rest));
        lemma_before_space(text::trimmed_start(rest));
        assert forall|i: int| 0 <= i < without_v(word).len() implies !text::white_space(
            #[trigger] without_v(word)[i],
        ) by {
            if text::has_prefix(word, "v"@) {
                assert(without_v(word)[i] == word[i + "v"@.len()]);
            }
        }
    }
}

/// A word is all that stands before a space, or before the end.
proof fn lemma_word_before_space(word: Seq<char>, tail: Seq<char>)
    requires
        is_word(word),
        tail.len() == 0 || text::white_space(tail[0]),
    ensures
        before_space(word + tail) == word,
    decreases word.len(),
{
    let all = word + tail;
    if word.len() > 0 {
        assert(all[0] == word[0]);
        assert(all.skip(1) =~= word.skip(1) + tail);
        assert forall|i: int| 0 <= i < word.skip(1).len() implies !text::white_space(
            #[trigger] word.skip(1)[i],
        ) by {
            assert(word.skip(1)[i] == word[i + 1]);
        }
        lemma_word_before_space(word.skip(1), tail);
        assert(seq![word[0]] + word.skip(1) =~= word);
    } else {
        assert(all =~= tail);
    }
}

/// A text without line feeds is one line, with or without one after it.
proof fn lemma_one_line(line: Seq<char>)
    requires
        line.len() > 0,
        forall|i: int| 0 <= i < line.len() ==> (#[trigger] line[i]) != '\n',
        line.last() != '\r',
    ensures
        text::lines_of(line.push('\n')) == seq![line],
{
    let all = line.push('\n');
    lemma_newline_index(all, line.len() as int);
    assert(all.take(line.len() as int) =~= line);
    assert(all.skip(line.len() as int + 1) =~= Seq::empty());
    assert(text::lines_of(all.skip(line.len() as int + 1)) =~= Seq::empty());
    assert(text::lines_of(all) =~= seq![line]);
}

proof fn lemma_newline_index(s: Seq<char>, n: int)
    requires
        0 <= n < s.len(),
        s[n] == '\n',
        forall|i: int| 0 <= i < n ==> (#[trigger] s[i]) != '\n',
    ensures
        text::newline_index(s) == Some(n),
    decreases n,
{
    if n > 0 {
        assert(s[0] != '\n');
        assert forall|i: int| 0 <= i < n - 1 implies (#[trigger] s.skip(1)[i]) != '\n' by {
            assert(s.skip(1)[i] == s[i + 1]);
        }
        lemma_newline_index(s.skip(1), n - 1);
    }
}

/// A release tag and the `--version` output of the same release give the same
/// version, whether the output starts with the tool's name or not. Otherwise
/// a record would seem to change when a tool is no longer downloaded but
/// preinstalled.
pub proof fn law_tag_agrees(binary: Seq<char>, tag: Seq<char>)
    requires
        is_word(binary),
        is_word(tag),
        starts_with_digit(without_v(tag)),
    ensures
        reported_version(binary, (binary + " "@ + tag).push('\n')) == Some(without_v(tag)),
        !text::has_prefix(tag, binary) ==> reported_version(binary, tag.push('\n')) == Some(
            without_v(tag),
        ),
{
    reveal_strlit(" ");
    reveal_strlit("v");
    assert(" "@ =~= seq![' ']);
    assert(tag.len() > 0);
    assert(!text::white_space(tag[0]));
    assert(!text::white_space(tag[tag.len() - 1]));
    assert(text::trimmed_start(tag) == tag);
    assert(text::trimmed(tag) == tag);
    // With the name.
    let line = binary + " "@ + tag;
    let rest = " "@ + tag;
    assert(rest.skip(1) =~= tag);
    assert(text::trimmed_start(rest) == tag);
    assert(line.last() == tag.last());
    assert forall|i: int| 0 <= i < line.len() implies (#[trigger] line[i]) != '\n' by {
        if i < binary.len() {
            assert(line[i] == binary[i]);
        } else if i > binary.len() {
            assert(line[i] == tag[i - binary.len() - 1]);
        }
    }
    lemma_one_line(line);
    assert(seq![line][0] == line);
    if binary.len() == 0 {
        assert(line =~= rest);
        assert(text::trimmed(line) == tag);
        assert(first_line(seq![line]) == Some(tag));
        assert(tag.take(0) =~= binary);
        assert(tag.skip(0) =~= tag);
    } else {
        assert(line[0] == binary[0]);
        assert(text::trimmed(line) == line);
        assert(first_line(seq![line]) == Some(line));
        assert(line.take(binary.len() as int) =~= binary);
        assert(line.skip(binary.len() as int) =~= rest);
    }
    lemma_word_before_space(tag, Seq::empty());
    assert(tag + Seq::<char>::empty() =~= tag);
    assert(before_space(tag) == tag);
    // Without the name.
    assert forall|i: int| 0 <= i < tag.len() implies (#[trigger] tag[i]) != '\n' by {}
    lemma_one_line(tag);
    assert(seq![tag][0] == tag);
    assert(first_line(seq![tag]) == Some(tag));
}

} // verus!
