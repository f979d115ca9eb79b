//! Splitting markdown content into YAML frontmatter and body.
use vstd::prelude::*;

use crate::error::ForjaError;
use crate::text::{
    chars_of, find, find_chars, find_from, leading_ws, matches_at, occurs_at, owned, starts_with,
    trailing_ws_end, trim, trim_start,
};

verus! {

/// The frontmatter delimiter.
pub open spec fn delimiter() -> Seq<char> {
    seq!['-', '-', '-']
}

/// What `split_frontmatter` yields for `c`: the trimmed text between an opening
/// `---` at the very start and the next `---`, and the body after that second
/// delimiter with its leading whitespace removed.
pub open spec fn split_spec(c: Seq<char>) -> Option<(Seq<char>, Seq<char>)> {
    if !starts_with(c, delimiter()) {
        None
    } else {
        let rest = c.skip(3);
        match find(rest, delimiter()) {
            None => None,
            Some(end) => Some((trim(rest.take(end)), trim_start(rest.skip(end + 3)))),
        }
    }
}

/// Split content into YAML frontmatter and markdown body.
///
/// Returns `(yaml, body)`; fails with `InvalidSpec` when the content does not
/// start with `---`, or when no closing `---` follows it.
pub fn split_frontmatter(content: &str) -> (r: Result<(&str, &str), ForjaError>)
    ensures
        match r {
            Ok((yaml, body)) => split_spec(content@) == Some((yaml@, body@)),
            Err(e) => {
                &&& split_spec(content@) is None
                &&& e matches ForjaError::InvalidSpec(m)
                &&& m@ == if !starts_with(content@, delimiter()) {
                    "missing opening --- delimiter"@
                } else {
                    "missing closing --- delimiter"@
                }
            },
        },
{
    let chars = chars_of(content);
    let mut dashes: Vec<char> = Vec::new();
    dashes.push('-');
    dashes.push('-');
    dashes.push('-');
    assert(dashes@ == delimiter());
    if !matches_at(&chars, &dashes, 0) {
        return Err(ForjaError::InvalidSpec(owned("missing opening --- delimiter")));
    }
    let ghost rest = content@.skip(3);
    let found = find_chars(&chars, &dashes, 3);
    proof {
        lemma_find_shift(content@, delimiter(), 3);
    }
    match found {
        None => Err(ForjaError::InvalidSpec(owned("missing closing --- delimiter"))),
        Some(end) => {
            let yaml_start = leading_ws(&chars, 3, end);
            let yaml_end = trailing_ws_end(&chars, yaml_start, end);
            let body_start = leading_ws(&chars, end + 3, chars.len());
            proof {
                assert(rest.take(end - 3) =~= chars@.subrange(3, end as int));
                assert(rest.skip(end - 3 + 3) =~= chars@.subrange(end + 3, chars@.len() as int));
            }
            let yaml = content.substring_char(yaml_start, yaml_end);
            let body = content.substring_char(body_start, chars.len());
            Ok((yaml, body))
        },
    }
}

proof fn lemma_find_first(y: Seq<char>, b: Seq<char>, i: int)
    requires
        0 <= i <= y.len(),
        forall|j: int| 0 <= j < y.len() ==> !occurs_at(#[trigger] (y + delimiter()), delimiter(), j),
    ensures
        find_from(y + delimiter() + b, delimiter(), i) == Some(y.len() as int),
    decreases y.len() - i,
{
    let s = y + delimiter() + b;
    if i == y.len() {
        assert(s.subrange(i, i + 3) =~= delimiter());
    } else {
        assert(!occurs_at(y + delimiter(), delimiter(), i));
        assert(s.subrange(i, i + 3) =~= (y + delimiter()).subrange(i, i + 3));
        lemma_find_first(y, b, i + 1);
    }
}

/// Content written as `---`, the frontmatter, `---`, the body splits back
/// into the trimmed frontmatter and the body without its leading white
/// space, as long as `---` does not start inside the frontmatter.
pub proof fn lemma_split_written(yaml: Seq<char>, body: Seq<char>)
    requires
        forall|j: int| 0 <= j < yaml.len() ==> !occurs_at(#[trigger] (yaml + delimiter()), delimiter(), j),
    ensures
        split_spec(delimiter() + yaml + delimiter() + body) == Some((trim(yaml), trim_start(body))),
{
    let c = delimiter() + yaml + delimiter() + body;
    assert(c.subrange(0, 3) =~= delimiter());
    let rest = c.skip(3);
    assert(rest =~= yaml + delimiter() + body);
    lemma_find_first(yaml, body, 0);
    let end = yaml.len() as int;
    assert(rest.take(end) =~= yaml);
    assert(rest.skip(end + 3) =~= body);
}

/// Searching `s` from position `k` is searching `s.skip(k)` from its start,
/// shifted by `k`.
pub proof fn lemma_find_shift(s: Seq<char>, p: Seq<char>, k: int)
    requires
        0 <= k <= s.len(),
    ensures
        match find_from(s, p, k) {
            Some(i) => find(s.skip(k), p) == Some(i - k),
            None => find(s.skip(k), p) is None,
        },
{
    lemma_find_shift_from(s, p, k, k);
}

proof fn lemma_find_shift_from(s: Seq<char>, p: Seq<char>, k: int, i: int)
    requires
        0 <= k <= i,
        k <= s.len(),
    ensures
        match find_from(s, p, i) {
            Some(j) => find_from(s.skip(k), p, i - k) == Some(j - k),
            None => find_from(s.skip(k), p, i - k) is None,
        },
    decreases s.len() - i,
{
    let t = s.skip(k);
    if i + p.len() > s.len() {
    } else {
        assert(s.subrange(i, i + p.len()) =~= t.subrange(i - k, i - k + p.len()));
        if occurs_at(s, p, i) {
        } else if i >= s.len() {
        } else {
            lemma_find_shift_from(s, p, k, i + 1);
        }
    }
}

} // verus!
