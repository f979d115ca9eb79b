//! Layout facts of the scan selection list: on which line the cursor is,
//! how phase headers and confidence are written.
use vstd::prelude::*;

use crate::scanner::models::Confidence;
use crate::text::{chars_of, owned, push_str, string_from_chars};
use crate::tui::scan_app::{ScanApp, ScanItem};

verus! {

/// The lines that the first `k` groups take: each a header, its items and
/// a blank line.
pub open spec fn lines_before(lens: Seq<nat>, k: int) -> int
    decreases k,
{
    if k <= 0 {
        0
    } else {
        lines_before(lens, k - 1) + lens[k - 1] + 2
    }
}

/// The item counts of the groups.
pub open spec fn group_lens(app: ScanApp) -> Seq<nat> {
    app.groups@.map_values(|g: (String, Vec<ScanItem>)| g.1@.len())
}

/// The display line of the cursor: the lines of the groups before its group,
/// that group's header, and the items above it; past the last group, the
/// lines of all groups.
pub open spec fn cursor_line(app: ScanApp) -> int {
    let lens = group_lens(app);
    let (gi, ii) = app.cursor;
    if gi < lens.len() {
        lines_before(lens, gi as int) + 1 + ii
    } else {
        lines_before(lens, lens.len() as int)
    }
}

proof fn lemma_lines_before_mono(lens: Seq<nat>, a: int, b: int)
    requires
        0 <= a <= b,
    ensures
        lines_before(lens, a) <= lines_before(lens, b),
    decreases b - a,
{
    if a < b {
        lemma_lines_before_mono(lens, a, b - 1);
    }
}

/// Which display line the cursor is on, counting phase headers and the blank
/// lines between groups.
pub fn calculate_cursor_line(app: &ScanApp) -> (r: usize)
    requires
        cursor_line(*app) <= usize::MAX,
    ensures
        r == cursor_line(*app),
{
    let (target_gi, target_ii) = app.cursor;
    let ghost lens = group_lens(*app);
    let mut line: usize = 0;
    let mut gi: usize = 0;
    while gi < app.groups.len()
        invariant
            gi <= app.groups@.len(),
            lens == group_lens(*app),
            lens.len() == app.groups@.len(),
            (target_gi, target_ii) == app.cursor,
            cursor_line(*app) <= usize::MAX,
            target_gi >= gi,
            line == lines_before(lens, gi as int),
        decreases app.groups@.len() - gi,
    {
        proof {
            if target_gi < lens.len() {
                lemma_lines_before_mono(lens, gi as int, target_gi as int);
            } else {
                lemma_lines_before_mono(lens, gi + 1, lens.len() as int);
            }
        }
        line = line + 1;
        if gi == target_gi {
            line = line + target_ii;
            return line;
        }
        assert(lens[gi as int] == app.groups@[gi as int].1@.len());
        proof {
            if target_gi < lens.len() {
                lemma_lines_before_mono(lens, gi + 1, target_gi as int);
            }
        }
        line = line + app.groups[gi].1.len();
        line = line + 1;
        gi = gi + 1;
    }
    line
}

/// The first line to show so that the cursor line stays visible in a pane
/// of `height` lines that showed from line `offset`: unchanged while the
/// cursor is inside, else scrolled just enough.
pub fn scroll_for(cursor_line: usize, offset: usize, height: usize) -> (r: usize)
    requires
        offset + height <= usize::MAX,
        cursor_line >= offset + height ==> height > 0,
    ensures
        r == if cursor_line < offset {
            cursor_line as int
        } else if cursor_line >= offset + height {
            if cursor_line >= height - 1 {
                cursor_line - (height - 1)
            } else {
                0
            }
        } else {
            offset as int
        },
{
    if cursor_line < offset {
        cursor_line
    } else if cursor_line >= offset + height {
        cursor_line.saturating_sub(height - 1)
    } else {
        offset
    }
}

/// The checkbox of an item: `[=]` when locked, `[x]` when checked, else
/// `[ ]`.
pub fn checkbox_marks(locked: bool, checked: bool) -> (r: &'static str)
    ensures
        r@ == if locked {
            " [=] "@
        } else if checked {
            " [x] "@
        } else {
            " [ ] "@
        },
{
    if locked {
        " [=] "
    } else if checked {
        " [x] "
    } else {
        " [ ] "
    }
}

/// The marks that show a confidence: `+++`, `++ ` or `+  `.
pub fn confidence_marks(c: Confidence) -> (r: &'static str)
    ensures
        r@ == match c {
            Confidence::High => "+++"@,
            Confidence::Medium => "++ "@,
            Confidence::Low => "+  "@,
        },
{
    match c {
        Confidence::High => "+++",
        Confidence::Medium => "++ ",
        Confidence::Low => "+  ",
    }
}

/// The upper-case form of a character, as `char::to_uppercase` gives it.
pub uninterp spec fn upper_case(c: char) -> Seq<char>;

/// Calls `char::to_uppercase`; its result is named by `upper_case`.
#[verifier::external_body]
fn to_upper(c: char) -> (r: String)
    ensures
        r@ == upper_case(c),
{
    c.to_uppercase().collect::<String>()
}

/// `s` with its first character in upper case.
pub fn capitalize(s: &str) -> (r: String)
    ensures
        s@.len() == 0 ==> r@ == Seq::<char>::empty(),
        s@.len() > 0 ==> r@ == upper_case(s@[0]) + s@.drop_first(),
{
    let chars = chars_of(s);
    if chars.len() == 0 {
        return String::new();
    }
    let mut r = to_upper(chars[0]);
    let mut rest: Vec<char> = Vec::new();
    let mut i: usize = 1;
    while i < chars.len()
        invariant
            1 <= i <= chars@.len(),
            rest@ == chars@.subrange(1, i as int),
        decreases chars@.len() - i,
    {
        rest.push(chars[i]);
        i = i + 1;
    }
    assert(rest@ =~= s@.drop_first());
    let tail = string_from_chars(rest.as_slice());
    push_str(&mut r, tail.as_str());
    r
}

/// `s` left-aligned in a field of `width` characters: spaces fill what is
/// left; a longer `s` is kept whole.
pub open spec fn padded(s: Seq<char>, width: nat) -> Seq<char> {
    if s.len() >= width {
        s
    } else {
        s + Seq::new((width - s.len()) as nat, |i: int| ' ')
    }
}

/// `name` left-aligned in a field of `width` characters (as `{:<width}`
/// formats it).
pub fn pad_name(name: &str, width: usize) -> (r: String)
    ensures
        r@ == padded(name@, width as nat),
{
    let mut cs = chars_of(name);
    let n = cs.len();
    if n < width {
        let mut k: usize = n;
        while k < width
            invariant
                n <= k <= width,
                n == name@.len(),
                cs@ == name@ + Seq::new((k - n) as nat, |i: int| ' '),
            decreases width - k,
        {
            cs.push(' ');
            k = k + 1;
            assert(cs@ =~= name@ + Seq::new((k - n) as nat, |i: int| ' '));
        }
    }
    string_from_chars(cs.as_slice())
}

/// The text of a list row after the confidence marks: `(installed)` for a
/// locked item, else the reason it was recommended.
pub fn item_note(item: &ScanItem) -> (r: String)
    ensures
        r@ == if item.locked {
            "(installed)"@
        } else {
            item.rec.reason@
        },
{
    if item.locked {
        owned("(installed)")
    } else {
        owned(item.rec.reason.as_str())
    }
}

} // verus!
