//! What the project has from other crates.

use globset::{Glob, GlobSet, GlobSetBuilder};
use rand::rngs::StdRng;
use rand::{Rng, SeedableRng};
use sha2::{Digest, Sha256};
use similar::TextDiff;
use vstd::prelude::*;

verus! {

/// A set of globs that can be matched together.
#[verifier::external_type_specification]
#[verifier::external_body]
pub struct ExGlobSet(GlobSet);

/// The patterns that a glob set was built from, in the order in which they were added.
pub uninterp spec fn glob_patterns(set: GlobSet) -> Seq<Seq<char>>;

/// A set of globs that is being put together.
#[verifier::external_type_specification]
#[verifier::external_body]
pub struct ExGlobSetBuilder(GlobSetBuilder);

/// The patterns that have been added to a builder, in their order.
pub uninterp spec fn added_globs(builder: GlobSetBuilder) -> Seq<Seq<char>>;

/// Whether a pattern without a backslash is a glob that `globset` can parse.
pub uninterp spec fn glob_is_valid(pattern: Seq<char>) -> bool;

/// Whether the glob `pattern` matches the path `path`, where neither has a backslash.
pub uninterp spec fn glob_matches(pattern: Seq<char>, path: Seq<char>) -> bool;

/// One of the patterns matches the path.
pub open spec fn some_glob_matches(patterns: Seq<Seq<char>>, path: Seq<char>) -> bool {
    exists|i: int| 0 <= i < patterns.len() && #[trigger] glob_matches(patterns[i], path)
}

/// The texts that strings hold.
pub open spec fn texts(strings: Seq<String>) -> Seq<Seq<char>> {
    strings.map_values(|s: String| s@)
}

/// No text has a backslash, which is a separator on some systems and an escape on others.
pub open spec fn free_of_backslashes(text: Seq<char>) -> bool {
    !text.contains('\\')
}

/// A character that means something else than itself in a glob.
pub open spec fn is_wild(c: char) -> bool {
    c == '?' || c == '*' || c == '[' || c == '{' || c == '}' || c == '\\'
}

/// A glob that matches only the path that it spells.
pub open spec fn is_plain(pattern: Seq<char>) -> bool {
    pattern.len() > 0 && forall|i: int|
        0 <= i < pattern.len() ==> !is_wild(#[trigger] pattern[i])
}

/// Each of the globs matches only the path that it spells.
pub open spec fn all_plain(patterns: Seq<Seq<char>>) -> bool {
    forall|i: int| 0 <= i < patterns.len() ==> is_plain(#[trigger] patterns[i])
}

/// `globset::GlobSetBuilder::new`: a builder to which no glob has been added.
#[verifier::external_body]
pub(crate) fn new_glob_set_builder() -> (r: GlobSetBuilder)
    ensures
        added_globs(r) == Seq::<Seq<char>>::empty(),
{
    GlobSetBuilder::new()
}

/// `globset::GlobSetBuilder::add`: adds the glob that `globset::Glob::new` makes of a pattern, and
/// tells whether it could make one; the builder stays as it is where it could not. A pattern without
/// wildcards can always be parsed. The parser looks at nothing but the pattern, except that the
/// meaning of a backslash depends on the system; whether such a pattern parses is left open.
#[verifier::external_body]
pub(crate) fn add_glob(builder: &mut GlobSetBuilder, pattern: &str) -> (r: bool)
    ensures
        free_of_backslashes(pattern@) ==> r == glob_is_valid(pattern@),
        is_plain(pattern@) ==> r,
        added_globs(*final(builder)) == (if r {
            added_globs(*old(builder)).push(pattern@)
        } else {
            added_globs(*old(builder))
        }),
{
    match Glob::new(pattern) {
        Ok(glob) => {
            builder.add(glob);
            true
        },
        Err(_) => false,
    }
}

/// `globset::GlobSetBuilder::build`: the set of the globs that were added, in their order. Globs
/// without wildcards are kept as they are; others are compiled, and whether they stay within the
/// memory that the crate allows for that depends on the machine and is left open.
#[verifier::external_body]
pub(crate) fn build_glob_set(builder: &GlobSetBuilder) -> (r: Option<GlobSet>)
    ensures
        r matches Some(set) ==> glob_patterns(set) == added_globs(*builder),
        all_plain(added_globs(*builder)) ==> r is Some,
{
    builder.build().ok()
}

/// `globset::GlobSet::is_match`: tells whether one of the globs of the set matches the path. A glob
/// without wildcards matches the path that it spells. Backslashes are read differently on different
/// systems; where one occurs nothing is claimed.
#[verifier::external_body]
pub(crate) fn glob_set_is_match(set: &GlobSet, path: &str) -> (r: bool)
    ensures
        free_of_backslashes(path@) && (forall|i: int|
            0 <= i < glob_patterns(*set).len() ==> free_of_backslashes(
                #[trigger] glob_patterns(*set)[i],
            )) ==> r == (exists|i: int|
            0 <= i < glob_patterns(*set).len() && #[trigger] glob_matches(
                glob_patterns(*set)[i],
                path@,
            )),
        free_of_backslashes(path@) && all_plain(glob_patterns(*set)) ==> r == glob_patterns(
            *set,
        ).contains(path@),
{
    set.is_match(path)
}

/// `rand`'s `StdRng`, seeded from the system's entropy: a number that nobody can foresee. Any
/// number can come, so nothing is claimed of it. It panics where the system has no entropy to give,
/// which no argument decides.
#[verifier::external_body]
pub(crate) fn random_nonce() -> u128 {
    StdRng::from_entropy().gen()
}

/// What became of a line.
#[derive(Clone, Copy, Debug, PartialEq, Eq, Structural)]
pub enum LineTag {
    Equal,
    Delete,
    Insert,
}

/// A line of two texts that are compared, with its ending.
#[derive(Debug, PartialEq, Eq)]
pub struct LineChange {
    pub tag: LineTag,
    pub text: String,
}

pub struct LineChangeView {
    pub tag: LineTag,
    pub text: Seq<char>,
}

impl View for LineChange {
    type V = LineChangeView;

    open spec fn view(&self) -> LineChangeView {
        LineChangeView { tag: self.tag, text: self.text@ }
    }
}

pub open spec fn change_views(changes: Seq<LineChange>) -> Seq<LineChangeView> {
    changes.map_values(|c: LineChange| c@)
}

/// The lines of the old text, one after the other.
pub open spec fn old_side(changes: Seq<LineChangeView>) -> Seq<char>
    decreases changes.len(),
{
    if changes.len() == 0 {
        Seq::empty()
    } else if changes.last().tag == LineTag::Insert {
        old_side(changes.drop_last())
    } else {
        old_side(changes.drop_last()) + changes.last().text
    }
}

/// The lines of the new text, one after the other.
pub open spec fn new_side(changes: Seq<LineChangeView>) -> Seq<char>
    decreases changes.len(),
{
    if changes.len() == 0 {
        Seq::empty()
    } else if changes.last().tag == LineTag::Delete {
        new_side(changes.drop_last())
    } else {
        new_side(changes.drop_last()) + changes.last().text
    }
}

/// The changes that `similar` finds between two texts, line by line.
pub uninterp spec fn line_diff(old: Seq<char>, new: Seq<char>) -> Seq<LineChangeView>;

/// `similar::TextDiff::from_lines`: compares two texts line by line. Which lines are found to be
/// the same is left to the crate; the lines that are kept or deleted make up the old text, and
/// those that are kept or inserted make up the new one. Lines are numbered with 32 bits, so the
/// texts must not be longer than that.
#[verifier::external_body]
pub(crate) fn diff_lines(old: &str, new: &str) -> (r: Vec<LineChange>)
    requires
        old@.len() <= 0x7fff_ffff,
        new@.len() <= 0x7fff_ffff,
    ensures
        change_views(r@) == line_diff(old@, new@),
        old_side(change_views(r@)) == old@,
        new_side(change_views(r@)) == new@,
{
    let diff = TextDiff::from_lines(old, new);
    let changes = diff.iter_all_changes().map(|c| LineChange {
        tag: match c.tag() {
            similar::ChangeTag::Equal => LineTag::Equal,
            similar::ChangeTag::Delete => LineTag::Delete,
            similar::ChangeTag::Insert => LineTag::Insert,
        },
        text: c.value().to_string(),
    });
    changes.collect()
}

/// What an optional text holds.
pub open spec fn optional_text(text: Option<String>) -> Option<Seq<char>> {
    match text {
        Some(t) => Some(t@),
        None => None,
    }
}

/// The member of a JSON object, as JSON text, if the text is such an object and has it.
pub uninterp spec fn json_member(text: Seq<char>, key: Seq<char>) -> Option<Seq<char>>;

/// `serde_json::Value::get`: the member of a JSON object. The object is parsed from its text, and
/// the member is written back as text.
#[verifier::external_body]
pub(crate) fn get_json_member(text: &str, key: &str) -> (r: Option<String>)
    ensures
        optional_text(r) == json_member(text@, key@),
{
    let document: serde_json::Value = serde_json::from_str(text).ok()?;
    document.get(key).map(|member| member.to_string())
}

/// A JSON object with a member replaced, as JSON text, if the text is such an object and has it.
pub uninterp spec fn json_with_member(
    text: Seq<char>,
    key: Seq<char>,
    value: Seq<char>,
) -> Option<Seq<char>>;

/// `serde_json::Value::get_mut`: replaces a member of a JSON object. The object and the new value
/// are parsed from their texts, and the result is written as text.
#[verifier::external_body]
pub(crate) fn set_json_member(text: &str, key: &str, value: &str) -> (r: Option<String>)
    ensures
        optional_text(r) == json_with_member(text@, key@, value@),
{
    let mut document: serde_json::Value = serde_json::from_str(text).ok()?;
    *document.get_mut(key)? = serde_json::from_str(value).ok()?;
    Some(document.to_string())
}

/// The SHA-256 digest of a message.
pub uninterp spec fn sha256_digest(message: Seq<u8>) -> Seq<u8>;

/// `sha2::Sha256::digest`: the digest of a message, which has 32 bytes.
#[verifier::external_body]
pub(crate) fn sha256(message: &Vec<u8>) -> (r: Vec<u8>)
    ensures
        r@ == sha256_digest(message@),
        r@.len() == 32,
{
    Sha256::digest(message).to_vec()
}

} // verus!
