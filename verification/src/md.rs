//! Line-by-line markdown reading for the preview pane: headings, bullets,
//! block quotes and fenced code blocks. Each source line becomes one
//! [`MdLine`] with its display text and style; inline emphasis is left as
//! plain text.

use vstd::prelude::*;

use crate::text::{
    chars_of, count_leading, leading_count, lines, lines_spec, slice_chars, starts_with,
    starts_with_spec, string_of, trim_chars, trim_spec, trim_start_chars, trim_start_spec, views,
};

verus! {

/// How a preview line is drawn.
#[derive(Clone, Copy, Debug, PartialEq, Eq, Structural)]
pub enum MdStyle {
    /// An ATX heading of the given level (1 to 6).
    Heading(usize),
    /// A `- ` or `* ` list item.
    Bullet,
    /// A `> ` block quote.
    Quote,
    /// A ```` ``` ```` fence line.
    Fence,
    /// A line inside a fenced code block.
    Code,
    /// Any other line, shown as written.
    Plain,
}

/// One rendered preview line.
pub struct MdLine {
    pub style: MdStyle,
    pub text: String,
}

/// The three backticks that open and close a code fence.
pub open spec fn fence_marker() -> Seq<char> {
    seq!['`', '`', '`']
}

/// The text shown for a fence line.
pub open spec fn fence_text() -> Seq<char> {
    seq!['\u{2504}', '\u{2504}', '\u{2504}']
}

/// `Some(n)` when `line` is an `n`-level ATX heading: one to six `#`
/// followed by a space.
pub open spec fn heading_level_spec(line: Seq<char>) -> Option<nat> {
    let h = leading_count(line, '#');
    if 1 <= h <= 6 && starts_with_spec(line.subrange(h as int, line.len() as int), seq![' ']) {
        Some(h)
    } else {
        None
    }
}

/// The text of a list item: what follows `"- "` or `"* "`.
pub open spec fn bullet_spec(line: Seq<char>) -> Option<Seq<char>> {
    if starts_with_spec(line, seq!['-', ' ']) || starts_with_spec(line, seq!['*', ' ']) {
        Some(line.subrange(2, line.len() as int))
    } else {
        None
    }
}

/// The title of a heading line: its leading `#`s removed, then trimmed.
pub open spec fn heading_text_spec(line: Seq<char>) -> Seq<char> {
    trim_spec(line.subrange(leading_count(line, '#') as int, line.len() as int))
}

/// Style and text of a line outside code blocks.
pub open spec fn render_line_spec(raw: Seq<char>) -> (MdStyle, Seq<char>) {
    let trimmed = trim_start_spec(raw);
    if heading_level_spec(trimmed) is Some {
        (MdStyle::Heading(heading_level_spec(trimmed)->0 as usize), heading_text_spec(trimmed))
    } else if bullet_spec(trimmed) is Some {
        (MdStyle::Bullet, seq![' ', ' ', '\u{2022}', ' '] + bullet_spec(trimmed)->0)
    } else if starts_with_spec(trimmed, seq!['>', ' ']) {
        (MdStyle::Quote, seq!['\u{2503}', ' '] + trimmed.subrange(2, trimmed.len() as int))
    } else {
        (MdStyle::Plain, raw)
    }
}

/// Whether `raw` opens or closes a code fence.
pub open spec fn is_fence_spec(raw: Seq<char>) -> bool {
    starts_with_spec(trim_start_spec(raw), fence_marker())
}

/// The rendering of `lines`, starting inside a code block when `in_code`.
pub open spec fn render_from(lines: Seq<Seq<char>>, in_code: bool) -> Seq<(MdStyle, Seq<char>)>
    decreases lines.len(),
{
    if lines.len() == 0 {
        seq![]
    } else {
        let raw = lines[0];
        let rest = lines.subrange(1, lines.len() as int);
        if is_fence_spec(raw) {
            seq![(MdStyle::Fence, fence_text())] + render_from(rest, !in_code)
        } else if in_code {
            seq![(MdStyle::Code, raw)] + render_from(rest, in_code)
        } else {
            seq![render_line_spec(raw)] + render_from(rest, in_code)
        }
    }
}

/// The rendering of a whole note.
pub open spec fn render_spec(source: Seq<char>) -> Seq<(MdStyle, Seq<char>)> {
    render_from(lines_spec(source), false)
}

/// Style and text of a rendered line.
pub open spec fn line_view(l: MdLine) -> (MdStyle, Seq<char>) {
    (l.style, l.text@)
}

/// `heading_level_spec` on a character vector.
fn heading_level_chars(line: &Vec<char>) -> (r: Option<usize>)
    ensures
        r matches Some(n) ==> heading_level_spec(line@) == Some(n as nat),
        r is None ==> heading_level_spec(line@) is None,
{
    let h = count_leading(line, '#');
    if 1 <= h && h <= 6 && h < line.len() && line[h] == ' ' {
        proof {
            assert(line@.subrange(h as int, line@.len() as int).subrange(0, 1) =~= seq![' ']);
        }
        Some(h)
    } else {
        proof {
            let t = line@.subrange(h as int, line@.len() as int);
            if t.len() >= 1 {
                assert(t[0] == line@[h as int]);
                assert(t.subrange(0, 1)[0] == t[0]);
            }
        }
        None
    }
}

/// `Some(n)` when `line` is an `n`-level ATX heading (`#`..`######` then a
/// space).
pub fn heading_level(line: &str) -> (r: Option<usize>)
    ensures
        r matches Some(n) ==> heading_level_spec(line@) == Some(n as nat),
        r is None ==> heading_level_spec(line@) is None,
{
    heading_level_chars(&chars_of(line))
}

/// The text after a two-character marker.
fn after_two(line: &Vec<char>, a: char) -> (r: bool)
    ensures
        r == starts_with_spec(line@, seq![a, ' ']),
{
    let p = vec![a, ' '];
    starts_with(line, &p)
}

fn bullet_chars(line: &Vec<char>) -> (r: Option<Vec<char>>)
    ensures
        r matches Some(t) ==> bullet_spec(line@) == Some(t@),
        r is None ==> bullet_spec(line@) is None,
{
    if after_two(line, '-') || after_two(line, '*') {
        Some(slice_chars(line, 2, line.len()))
    } else {
        None
    }
}

/// The text of a `- ` or `* ` list item.
pub fn bullet(line: &str) -> (r: Option<String>)
    ensures
        r matches Some(t) ==> bullet_spec(line@) == Some(t@),
        r is None ==> bullet_spec(line@) is None,
{
    match bullet_chars(&chars_of(line)) {
        Some(t) => Some(string_of(t.as_slice())),
        None => None,
    }
}

/// `prefix` followed by `rest`.
fn concat_chars(prefix: Vec<char>, rest: &Vec<char>) -> (r: Vec<char>)
    ensures
        r@ == prefix@ + rest@,
{
    let mut r = prefix;
    let mut i: usize = 0;
    let ghost p = r@;
    while i < rest.len()
        invariant
            i <= rest@.len(),
            r@ == p + rest@.subrange(0, i as int),
        decreases rest@.len() - i,
    {
        r.push(rest[i]);
        assert(r@ =~= p + rest@.subrange(0, i + 1));
        i = i + 1;
    }
    assert(rest@.subrange(0, rest@.len() as int) =~= rest@);
    r
}

/// Style and text of one line outside code blocks.
fn render_line(raw: &Vec<char>) -> (r: (MdStyle, Vec<char>))
    ensures
        (r.0, r.1@) == render_line_spec(raw@),
{
    let trimmed = trim_start_chars(raw);
    if let Some(level) = heading_level_chars(&trimmed) {
        let h = count_leading(&trimmed, '#');
        let body = slice_chars(&trimmed, h, trimmed.len());
        return (MdStyle::Heading(level), trim_chars(&body));
    }
    if let Some(rest) = bullet_chars(&trimmed) {
        return (MdStyle::Bullet, concat_chars(vec![' ', ' ', '\u{2022}', ' '], &rest));
    }
    if after_two(&trimmed, '>') {
        let rest = slice_chars(&trimmed, 2, trimmed.len());
        return (MdStyle::Quote, concat_chars(vec!['\u{2503}', ' '], &rest));
    }
    (MdStyle::Plain, slice_chars(raw, 0, raw.len()))
}

/// Whether a line opens or closes a code fence.
fn is_fence(raw: &Vec<char>) -> (b: bool)
    ensures
        b == is_fence_spec(raw@),
{
    let t = trim_start_chars(raw);
    let m = vec!['`', '`', '`'];
    starts_with(&t, &m)
}

/// Renders a note's markdown line by line: headings, bullets, block quotes
/// and fenced code blocks; every other line is kept as written.
pub fn render(source: &str) -> (r: Vec<MdLine>)
    ensures
        r@.map_values(|l: MdLine| line_view(l)) == render_spec(source@),
        r@.len() == lines_spec(source@).len(),
        forall|i: int|
            0 <= i < r@.len() && !is_fence_spec(lines_spec(source@)[i]) && fences_before(lines_spec(source@), i)
                % 2 == 1 ==> (#[trigger] r@[i]).style == MdStyle::Code && r@[i].text@ == lines_spec(source@)[i],
{
    let src = chars_of(source);
    let ls = lines(&src);
    let ghost all = views(ls@);
    let mut out: Vec<MdLine> = Vec::new();
    let mut in_code = false;
    let mut i: usize = 0;
    proof {
        assert(all.subrange(0, all.len() as int) =~= all);
        assert(out@.map_values(|l: MdLine| line_view(l)) =~= Seq::<(MdStyle, Seq<char>)>::empty());
    }
    while i < ls.len()
        invariant
            all == views(ls@),
            all == lines_spec(src@),
            src@ == source@,
            i <= ls@.len(),
            out@.map_values(|l: MdLine| line_view(l)) + render_from(
                all.subrange(i as int, all.len() as int),
                in_code,
            ) == render_from(all, false),
        decreases ls@.len() - i,
    {
        let raw = &ls[i];
        let ghost old_out = out@.map_values(|l: MdLine| line_view(l));
        let ghost rest = all.subrange(i as int, all.len() as int);
        proof {
            assert(rest[0] == raw@);
            assert(rest.subrange(1, rest.len() as int) =~= all.subrange(i + 1, all.len() as int));
        }
        if is_fence(raw) {
            out.push(MdLine { style: MdStyle::Fence, text: string_of(&['\u{2504}', '\u{2504}', '\u{2504}']) });
            in_code = !in_code;
        } else if in_code {
            out.push(MdLine { style: MdStyle::Code, text: string_of(raw.as_slice()) });
        } else {
            let (style, text) = render_line(raw);
            out.push(MdLine { style, text: string_of(text.as_slice()) });
        }
        proof {
            let nv = out@.map_values(|l: MdLine| line_view(l));
            assert(nv =~= old_out.push(nv.last()));
            assert(nv + render_from(all.subrange(i + 1, all.len() as int), in_code) =~= old_out
                + render_from(rest, if is_fence_spec(raw@) { !in_code } else { in_code }));
        }
        i = i + 1;
    }
    proof {
        assert(render_from(all.subrange(i as int, all.len() as int), in_code) =~= Seq::<
            (MdStyle, Seq<char>),
        >::empty());
        assert(out@.map_values(|l: MdLine| line_view(l)) + Seq::<(MdStyle, Seq<char>)>::empty()
            =~= out@.map_values(|l: MdLine| line_view(l)));
        law_code_kept_as_written(source@);
        let v = out@.map_values(|l: MdLine| line_view(l));
        assert forall|i: int| 0 <= i < out@.len() implies line_view(#[trigger] out@[i]) == v[i] by {}
    }
    out
}

} // verus!

verus! {

/// How many of the first `i` lines are fence lines.
pub open spec fn fences_before(lines: Seq<Seq<char>>, i: int) -> nat
    decreases i,
{
    if i <= 0 {
        0
    } else {
        fences_before(lines, i - 1) + if is_fence_spec(lines[i - 1]) {
            1nat
        } else {
            0nat
        }
    }
}

proof fn lemma_fences_shift(lines: Seq<Seq<char>>, i: int)
    requires
        1 <= i <= lines.len(),
    ensures
        fences_before(lines, i) == (if is_fence_spec(lines[0]) {
            1nat
        } else {
            0nat
        }) + fences_before(lines.subrange(1, lines.len() as int), i - 1),
    decreases i,
{
    let rest = lines.subrange(1, lines.len() as int);
    assert(fences_before(lines, 0) == 0);
    assert(fences_before(rest, 0) == 0);
    assert(fences_before(lines, i) == fences_before(lines, i - 1) + if is_fence_spec(lines[i - 1]) {
        1nat
    } else {
        0nat
    });
    if i > 1 {
        lemma_fences_shift(lines, i - 1);
        assert(rest[i - 2] == lines[i - 1]);
        assert(fences_before(rest, i - 1) == fences_before(rest, i - 2) + if is_fence_spec(rest[i - 2]) {
            1nat
        } else {
            0nat
        });
    }
}

/// Line `i` lies inside a code block: an odd number of fences (counting a
/// block already open at the start) come before it.
pub open spec fn inside_code(lines: Seq<Seq<char>>, in_code: bool, i: int) -> bool {
    ((if in_code {
        1int
    } else {
        0int
    }) + fences_before(lines, i)) % 2 == 1
}

proof fn lemma_render_lines(lines: Seq<Seq<char>>, in_code: bool)
    ensures
        render_from(lines, in_code).len() == lines.len(),
        forall|i: int|
            0 <= i < lines.len() ==> #[trigger] render_from(lines, in_code)[i] == if is_fence_spec(lines[i]) {
                (MdStyle::Fence, fence_text())
            } else if inside_code(lines, in_code, i) {
                (MdStyle::Code, lines[i])
            } else {
                render_line_spec(lines[i])
            },
    decreases lines.len(),
{
    if lines.len() > 0 {
        let rest = lines.subrange(1, lines.len() as int);
        let f0 = is_fence_spec(lines[0]);
        let ic2 = if f0 { !in_code } else { in_code };
        lemma_render_lines(rest, ic2);
        let out = render_from(lines, in_code);
        let head = if f0 {
            (MdStyle::Fence, fence_text())
        } else if in_code {
            (MdStyle::Code, lines[0])
        } else {
            render_line_spec(lines[0])
        };
        assert(out == seq![head] + render_from(rest, ic2));
        assert forall|i: int| 0 <= i < lines.len() implies #[trigger] render_from(lines, in_code)[i] == if is_fence_spec(lines[i]) {
            (MdStyle::Fence, fence_text())
        } else if inside_code(lines, in_code, i) {
            (MdStyle::Code, lines[i])
        } else {
            render_line_spec(lines[i])
        } by {
            if i == 0 {
                assert(out[0] == head);
            } else {
                assert(out[i] == render_from(rest, ic2)[i - 1]);
                assert(rest[i - 1] == lines[i]);
                lemma_fences_shift(lines, i);
            }
        }
    }
}

/// Fenced code is shown as written: a note's preview has one line per
/// source line; a fence line shows as the fence mark, every line inside a
/// code block (an odd number of fences before it) is code with exactly the
/// source line's text, and every other line is read as markdown.
pub proof fn law_code_kept_as_written(source: Seq<char>)
    ensures
        render_spec(source).len() == lines_spec(source).len(),
        forall|i: int|
            0 <= i < lines_spec(source).len() ==> #[trigger] render_spec(source)[i] == if is_fence_spec(
                lines_spec(source)[i],
            ) {
                (MdStyle::Fence, fence_text())
            } else if fences_before(lines_spec(source), i) % 2 == 1 {
                (MdStyle::Code, lines_spec(source)[i])
            } else {
                render_line_spec(lines_spec(source)[i])
            },
{
    lemma_render_lines(lines_spec(source), false);
}

} // verus!
