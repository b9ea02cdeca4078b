//! What drawing needs to know that is not drawing: the channels of a colour,
//! the order in which elements are drawn, the markup of text.
use vstd::prelude::*;
use vstd::string::StringSliceAdditionalSpecFns;
use crate::canvas::text_overlay::join_lines;
use crate::model::commands::{sorted_by_z, z_sorted};
use crate::model::document::{
    elements_model, Background, Element, ListType, TextAttrs, TextBlockModel, TextProps, TextRun,
};

verus! {

/// `b` without its leading `#` bytes.
pub open spec fn trim_hashes(b: Seq<u8>) -> Seq<u8>
    decreases b.len(),
{
    if b.len() > 0 && b[0] == 0x23u8 {
        trim_hashes(b.drop_first())
    } else {
        b
    }
}

/// Whether `c` is an ASCII hexadecimal digit.
pub open spec fn is_hex(c: u8) -> bool {
    (0x30 <= c && c <= 0x39) || (0x41 <= c && c <= 0x46) || (0x61 <= c && c <= 0x66)
}

/// The value of a hexadecimal digit.
pub open spec fn hex_value(c: u8) -> int {
    if 0x30 <= c && c <= 0x39 {
        c - 0x30
    } else if 0x41 <= c && c <= 0x46 {
        c - 0x41 + 10
    } else {
        c - 0x61 + 10
    }
}

/// A channel written as two bytes: two hexadecimal digits, or a `+` and one digit,
/// as base-16 parsing of an unsigned byte reads them; anything else counts as 0.
pub open spec fn channel(c0: u8, c1: u8) -> u8 {
    if is_hex(c0) && is_hex(c1) {
        (16 * hex_value(c0) + hex_value(c1)) as u8
    } else if c0 == 0x2Bu8 && is_hex(c1) {
        hex_value(c1) as u8
    } else {
        0
    }
}

/// Whether position `k` of `b` starts a character (or is the end).
pub open spec fn starts_char(b: Seq<u8>, k: int) -> bool {
    k == b.len() || !(0x80 <= b[k] && b[k] <= 0xBF)
}

/// The inputs whose two-byte channels fall on character boundaries.
pub open spec fn channels_whole(b: Seq<u8>) -> bool {
    let t = trim_hashes(b);
    t.len() >= 6 ==> starts_char(t, 2) && starts_char(t, 4) && starts_char(t, 6)
}

/// Red, green, blue and alpha of a colour written `#RRGGBB` or `#RRGGBBAA`
/// (leading `#`s optional and skipped); opaque black when fewer than six bytes remain.
pub open spec fn color_of(b: Seq<u8>) -> (u8, u8, u8, u8) {
    let t = trim_hashes(b);
    if t.len() >= 6 {
        (
            channel(t[0], t[1]),
            channel(t[2], t[3]),
            channel(t[4], t[5]),
            if t.len() == 8 { channel(t[6], t[7]) } else { 255 },
        )
    } else {
        (0, 0, 0, 255)
    }
}

proof fn lemma_trim_hashes_skip(b: Seq<u8>, k: int)
    requires
        0 <= k <= b.len(),
        forall|i: int| 0 <= i < k ==> b[i] == 0x23u8,
        k == b.len() || b[k] != 0x23u8,
    ensures
        trim_hashes(b) == b.skip(k),
    decreases k,
{
    if k > 0 {
        assert forall|i: int| 0 <= i < k - 1 implies b.drop_first()[i] == 0x23u8 by {
            assert(b.drop_first()[i] == b[i + 1]);
        }
        lemma_trim_hashes_skip(b.drop_first(), k - 1);
        assert(b.drop_first().skip(k - 1) =~= b.skip(k));
    } else {
        assert(b.skip(0) =~= b);
    }
}

/// The number of leading `#` bytes.
fn hashes(b: &[u8]) -> (k: usize)
    ensures
        k <= b@.len(),
        trim_hashes(b@) == b@.skip(k as int),
{
    let mut k: usize = 0;
    while k < b.len() && b[k] == 0x23
        invariant
            k <= b@.len(),
            forall|i: int| 0 <= i < k ==> b@[i] == 0x23u8,
        decreases b@.len() - k,
    {
        k = k + 1;
    }
    proof {
        lemma_trim_hashes_skip(b@, k as int);
    }
    k
}

fn hex_digit(c: u8) -> (r: Option<u8>)
    ensures
        r matches Some(v) ==> is_hex(c) && v == hex_value(c),
        r is None ==> !is_hex(c),
{
    if 0x30 <= c && c <= 0x39 {
        Some(c - 0x30)
    } else if 0x41 <= c && c <= 0x46 {
        Some(c - 0x41 + 10)
    } else if 0x61 <= c && c <= 0x66 {
        Some(c - 0x61 + 10)
    } else {
        None
    }
}

fn parse_channel(c0: u8, c1: u8) -> (r: u8)
    ensures
        r == channel(c0, c1),
{
    match (hex_digit(c0), hex_digit(c1)) {
        (Some(h), Some(l)) => h * 16 + l,
        (None, Some(l)) => if c0 == 0x2B { l } else { 0 },
        _ => 0,
    }
}

/// Whether `color` can read `value` without cutting a character.
pub fn color_is_readable(value: &str) -> (r: bool)
    ensures
        r == channels_whole(value.spec_bytes()),
{
    let b = value.as_bytes();
    let k = hashes(b);
    let n = b.len() - k;
    if n < 6 {
        return true;
    }
    let ok = |i: usize| -> (r: bool)
        requires
            k + i <= b@.len(),
        ensures
            r == (k + i == b@.len() || !(0x80 <= b@[k + i] && b@[k + i] <= 0xBF)),
        {
            k + i == b.len() || !(0x80 <= b[k + i] && b[k + i] <= 0xBF)
        };
    let r = ok(2) && ok(4) && ok(6);
    assert(b@.skip(k as int).len() == n);
    r
}

/// The channels of a colour written `#RRGGBB` or `#RRGGBBAA`, each 0 to 255.
pub fn color(value: &str) -> (r: (u8, u8, u8, u8))
    requires
        channels_whole(value.spec_bytes()),
    ensures
        r == color_of(value.spec_bytes()),
{
    let b = value.as_bytes();
    let k = hashes(b);
    let n = b.len() - k;
    if n >= 6 {
        let red = parse_channel(b[k], b[k + 1]);
        let green = parse_channel(b[k + 2], b[k + 3]);
        let blue = parse_channel(b[k + 4], b[k + 5]);
        let alpha = if n == 8 { parse_channel(b[k + 6], b[k + 7]) } else { 255 };
        (red, green, blue, alpha)
    } else {
        (0, 0, 0, 255)
    }
}

/// The elements in the order in which they are drawn: by depth, elements of equal
/// depth in slide order.
pub fn drawing_order(elements: &Vec<Element>) -> (r: Vec<Element>)
    ensures
        elements_model(r@) == z_sorted(elements_model(elements@)),
{
    sorted_by_z(elements)
}

/// The colour a slide's background is painted with: its own colour, or white for a
/// gradient or an image, which are not drawn.
pub fn background_fill(background: &Background) -> (r: String)
    ensures
        r@ == (match background {
            Background::Color { value } => value@,
            _ => "#FFFFFF"@,
        }),
{
    match background {
        Background::Color { value } => value.clone(),
        _ => "#FFFFFF".to_owned(),
    }
}

/// What a paragraph's list style puts before its text.
pub open spec fn list_prefix(list: Option<ListType>) -> Seq<char> {
    match list {
        Some(ListType::Bullet) => "• "@,
        Some(ListType::Ordered) => "1. "@,
        None => Seq::empty(),
    }
}

/// `text` where `flag` holds, nothing otherwise.
pub open spec fn when(flag: bool, text: Seq<char>) -> Seq<char> {
    if flag {
        text
    } else {
        Seq::empty()
    }
}

/// The markup attributes for bold, italic, underlined and struck-through text.
pub open spec fn style_markup(attrs: TextAttrs) -> Seq<char> {
    when(attrs.bold, " weight=\"bold\""@) + when(attrs.italic, " style=\"italic\""@) + when(
        attrs.underline,
        " underline=\"single\""@,
    ) + when(attrs.strikethrough, " strikethrough=\"true\""@)
}

/// The colour of a run: its own, or dark grey.
pub open spec fn run_color(attrs: TextAttrs) -> Seq<char> {
    match attrs.color {
        Some(c) => c@,
        None => "#202020"@,
    }
}

/// The markup of one run, given its text escaped for markup.
pub open spec fn span_markup(run: TextRun, escaped: Seq<char>) -> Seq<char> {
    "<span foreground=\""@ + run_color(run.attrs) + "\""@ + style_markup(run.attrs) + ">"@ + escaped
        + "</span>"@
}

/// Whether `part` occurs in `s`.
pub open spec fn contains_text(s: Seq<char>, part: Seq<char>) -> bool {
    exists|i: int| 0 <= i && i + part.len() <= s.len() && #[trigger] s.subrange(i, i + part.len()) == part
}

/// Whether `long` is `short` with `part` put in at one place.
pub open spec fn inserts(short: Seq<char>, long: Seq<char>, part: Seq<char>) -> bool {
    exists|p: int| 0 <= p <= short.len() && long == #[trigger] short.take(p) + part + short.skip(p)
}

/// The run with its attributes replaced.
pub open spec fn with_attrs(run: TextRun, attrs: TextAttrs) -> TextRun {
    TextRun { attrs, ..run }
}

proof fn lemma_inserts(a: Seq<char>, part: Seq<char>, b: Seq<char>)
    ensures
        inserts(a + b, a + part + b, part),
{
    let s = a + b;
    assert(s.take(a.len() as int) =~= a);
    assert(s.skip(a.len() as int) =~= b);
    assert(a + part + b =~= s.take(a.len() as int) + part + s.skip(a.len() as int));
}

proof fn lemma_contains(a: Seq<char>, part: Seq<char>, b: Seq<char>)
    ensures
        contains_text(a + part + b, part),
{
    let s = a + part + b;
    let i = a.len() as int;
    assert(s.subrange(i, i + part.len()) =~= part);
}

proof fn lemma_inserts_within(pre: Seq<char>, s1: Seq<char>, s2: Seq<char>, post: Seq<char>, part: Seq<char>)
    requires
        inserts(s1, s2, part),
    ensures
        inserts(pre + s1 + post, pre + s2 + post, part),
{
    let p = choose|p: int| 0 <= p <= s1.len() && s2 == #[trigger] s1.take(p) + part + s1.skip(p);
    let l = pre + s1 + post;
    let q = pre.len() + p;
    assert(l.take(q) =~= pre + s1.take(p));
    assert(l.skip(q) =~= s1.skip(p) + post);
    assert(pre + s2 + post =~= l.take(q) + part + l.skip(q));
}

proof fn lemma_contains_within(pre: Seq<char>, s: Seq<char>, post: Seq<char>, part: Seq<char>)
    requires
        contains_text(s, part),
    ensures
        contains_text(pre + s + post, part),
{
    let i = choose|i: int| 0 <= i && i + part.len() <= s.len() && #[trigger] s.subrange(i, i + part.len()) == part;
    let l = pre + s + post;
    let j = pre.len() + i;
    assert(l.subrange(j, j + part.len()) =~= s.subrange(i, i + part.len()));
}

proof fn lemma_span_parts(run: TextRun, x: TextAttrs, escaped: Seq<char>)
    ensures
        span_markup(with_attrs(run, x), escaped) == "<span foreground=\""@ + run_color(x) + "\""@
            + style_markup(x) + (">"@ + escaped + "</span>"@),
{
    assert(span_markup(with_attrs(run, x), escaped) =~= "<span foreground=\""@ + run_color(x) + "\""@
        + style_markup(x) + (">"@ + escaped + "</span>"@));
}

/// Setting one style flag puts its attribute into the style markup; a set flag's
/// attribute is there.
proof fn lemma_style_flags(a: TextAttrs)
    ensures
        inserts(style_markup(TextAttrs { bold: false, ..a }), style_markup(TextAttrs { bold: true, ..a }), " weight=\"bold\""@),
        inserts(style_markup(TextAttrs { italic: false, ..a }), style_markup(TextAttrs { italic: true, ..a }), " style=\"italic\""@),
        inserts(style_markup(TextAttrs { underline: false, ..a }), style_markup(TextAttrs { underline: true, ..a }), " underline=\"single\""@),
        inserts(style_markup(TextAttrs { strikethrough: false, ..a }), style_markup(TextAttrs { strikethrough: true, ..a }), " strikethrough=\"true\""@),
        a.bold ==> contains_text(style_markup(a), " weight=\"bold\""@),
        a.italic ==> contains_text(style_markup(a), " style=\"italic\""@),
        a.underline ==> contains_text(style_markup(a), " underline=\"single\""@),
        a.strikethrough ==> contains_text(style_markup(a), " strikethrough=\"true\""@),
{
    let wb = when(a.bold, " weight=\"bold\""@);
    let wi = when(a.italic, " style=\"italic\""@);
    let wu = when(a.underline, " underline=\"single\""@);
    let ws = when(a.strikethrough, " strikethrough=\"true\""@);
    let e = Seq::<char>::empty();
    assert(style_markup(TextAttrs { bold: false, ..a }) =~= e + (wi + wu + ws));
    assert(style_markup(TextAttrs { bold: true, ..a }) =~= e + " weight=\"bold\""@ + (wi + wu + ws));
    lemma_inserts(e, " weight=\"bold\""@, wi + wu + ws);
    assert(style_markup(TextAttrs { italic: false, ..a }) =~= wb + (wu + ws));
    assert(style_markup(TextAttrs { italic: true, ..a }) =~= wb + " style=\"italic\""@ + (wu + ws));
    lemma_inserts(wb, " style=\"italic\""@, wu + ws);
    assert(style_markup(TextAttrs { underline: false, ..a }) =~= (wb + wi) + ws);
    assert(style_markup(TextAttrs { underline: true, ..a }) =~= (wb + wi) + " underline=\"single\""@ + ws);
    lemma_inserts(wb + wi, " underline=\"single\""@, ws);
    assert(style_markup(TextAttrs { strikethrough: false, ..a }) =~= (wb + wi + wu) + e);
    assert(style_markup(TextAttrs { strikethrough: true, ..a }) =~= (wb + wi + wu) + " strikethrough=\"true\""@ + e);
    lemma_inserts(wb + wi + wu, " strikethrough=\"true\""@, e);
    if a.bold {
        assert(style_markup(a) =~= e + " weight=\"bold\""@ + (wi + wu + ws));
        lemma_contains(e, " weight=\"bold\""@, wi + wu + ws);
    }
    if a.italic {
        assert(style_markup(a) =~= wb + " style=\"italic\""@ + (wu + ws));
        lemma_contains(wb, " style=\"italic\""@, wu + ws);
    }
    if a.underline {
        assert(style_markup(a) =~= (wb + wi) + " underline=\"single\""@ + ws);
        lemma_contains(wb + wi, " underline=\"single\""@, ws);
    }
    if a.strikethrough {
        assert(style_markup(a) =~= (wb + wi + wu) + " strikethrough=\"true\""@ + e);
        lemma_contains(wb + wi + wu, " strikethrough=\"true\""@, e);
    }
}

/// Each style flag of a run shows in its markup as its own attribute: setting the
/// bold, italic, underline or strikethrough flag puts ` weight="bold"`,
/// ` style="italic"`, ` underline="single"` or ` strikethrough="true"` into the
/// run's span, and nothing else changes; so a run whose flag is set carries that
/// attribute.
pub proof fn lemma_style_flags_in_markup(run: TextRun, escaped: Seq<char>)
    ensures
        inserts(
            span_markup(with_attrs(run, TextAttrs { bold: false, ..run.attrs }), escaped),
            span_markup(with_attrs(run, TextAttrs { bold: true, ..run.attrs }), escaped),
            " weight=\"bold\""@,
        ),
        inserts(
            span_markup(with_attrs(run, TextAttrs { italic: false, ..run.attrs }), escaped),
            span_markup(with_attrs(run, TextAttrs { italic: true, ..run.attrs }), escaped),
            " style=\"italic\""@,
        ),
        inserts(
            span_markup(with_attrs(run, TextAttrs { underline: false, ..run.attrs }), escaped),
            span_markup(with_attrs(run, TextAttrs { underline: true, ..run.attrs }), escaped),
            " underline=\"single\""@,
        ),
        inserts(
            span_markup(with_attrs(run, TextAttrs { strikethrough: false, ..run.attrs }), escaped),
            span_markup(with_attrs(run, TextAttrs { strikethrough: true, ..run.attrs }), escaped),
            " strikethrough=\"true\""@,
        ),
        run.attrs.bold ==> contains_text(span_markup(run, escaped), " weight=\"bold\""@),
        run.attrs.italic ==> contains_text(span_markup(run, escaped), " style=\"italic\""@),
        run.attrs.underline ==> contains_text(span_markup(run, escaped), " underline=\"single\""@),
        run.attrs.strikethrough ==> contains_text(span_markup(run, escaped), " strikethrough=\"true\""@),
{
    let a = run.attrs;
    let pre = "<span foreground=\""@ + run_color(a) + "\""@;
    let post = ">"@ + escaped + "</span>"@;
    lemma_style_flags(a);
    assert(run_color(TextAttrs { bold: true, ..a }) == run_color(a));
    lemma_span_parts(run, TextAttrs { bold: false, ..a }, escaped);
    lemma_span_parts(run, TextAttrs { bold: true, ..a }, escaped);
    lemma_span_parts(run, TextAttrs { italic: false, ..a }, escaped);
    lemma_span_parts(run, TextAttrs { italic: true, ..a }, escaped);
    lemma_span_parts(run, TextAttrs { underline: false, ..a }, escaped);
    lemma_span_parts(run, TextAttrs { underline: true, ..a }, escaped);
    lemma_span_parts(run, TextAttrs { strikethrough: false, ..a }, escaped);
    lemma_span_parts(run, TextAttrs { strikethrough: true, ..a }, escaped);
    lemma_span_parts(run, a, escaped);
    assert(with_attrs(run, a) == run);
    lemma_inserts_within(pre, style_markup(TextAttrs { bold: false, ..a }), style_markup(TextAttrs { bold: true, ..a }), post, " weight=\"bold\""@);
    lemma_inserts_within(pre, style_markup(TextAttrs { italic: false, ..a }), style_markup(TextAttrs { italic: true, ..a }), post, " style=\"italic\""@);
    lemma_inserts_within(pre, style_markup(TextAttrs { underline: false, ..a }), style_markup(TextAttrs { underline: true, ..a }), post, " underline=\"single\""@);
    lemma_inserts_within(pre, style_markup(TextAttrs { strikethrough: false, ..a }), style_markup(TextAttrs { strikethrough: true, ..a }), post, " strikethrough=\"true\""@);
    if a.bold {
        lemma_contains_within(pre, style_markup(a), post, " weight=\"bold\""@);
    }
    if a.italic {
        lemma_contains_within(pre, style_markup(a), post, " style=\"italic\""@);
    }
    if a.underline {
        lemma_contains_within(pre, style_markup(a), post, " underline=\"single\""@);
    }
    if a.strikethrough {
        lemma_contains_within(pre, style_markup(a), post, " strikethrough=\"true\""@);
    }
}

/// The markup of some runs, one after the other.
pub open spec fn runs_markup(runs: Seq<TextRun>, escaped: Seq<Seq<char>>) -> Seq<char>
    decreases runs.len(),
{
    if runs.len() == 0 {
        Seq::empty()
    } else {
        runs_markup(runs.drop_last(), escaped) + span_markup(
            runs.last(),
            escaped[runs.len() - 1],
        )
    }
}

/// The markup of a paragraph: its list prefix, then its runs.
pub open spec fn block_markup(block: TextBlockModel, escaped: Seq<Seq<char>>) -> Seq<char> {
    list_prefix(block.list) + runs_markup(block.runs, escaped)
}

/// The markup of text properties: the paragraphs' markup, one per line.
pub open spec fn markup_of(blocks: Seq<TextBlockModel>, escaped: Seq<Seq<Seq<char>>>) -> Seq<char> {
    join_lines(Seq::new(blocks.len(), |i: int| block_markup(blocks[i], escaped[i])))
}

/// The escaped texts, as text.
pub open spec fn escaped_model(escaped: Seq<Vec<String>>) -> Seq<Seq<Seq<char>>> {
    escaped.map_values(|v: Vec<String>| v@.map_values(|s: String| s@))
}

fn push_when(r: &mut String, flag: bool, text: &str)
    ensures
        final(r)@ == old(r)@ + when(flag, text@),
{
    if flag {
        r.append(text);
    }
    assert(final(r)@ =~= old(r)@ + when(flag, text@));
}

fn push_style(r: &mut String, attrs: &TextAttrs)
    ensures
        final(r)@ == old(r)@ + style_markup(*attrs),
{
    push_when(r, attrs.bold, " weight=\"bold\"");
    push_when(r, attrs.italic, " style=\"italic\"");
    push_when(r, attrs.underline, " underline=\"single\"");
    push_when(r, attrs.strikethrough, " strikethrough=\"true\"");
    assert(final(r)@ =~= old(r)@ + style_markup(*attrs));
}

fn push_span(r: &mut String, run: &TextRun, escaped: &String)
    ensures
        final(r)@ == old(r)@ + span_markup(*run, escaped@),
{
    r.append("<span foreground=\"");
    let ghost a = r@;
    match &run.attrs.color {
        Some(c) => r.append(c.as_str()),
        None => r.append("#202020"),
    }
    assert(r@ == a + run_color(run.attrs));
    r.append("\"");
    push_style(r, &run.attrs);
    r.append(">");
    r.append(escaped.as_str());
    r.append("</span>");
    assert(final(r)@ =~= old(r)@ + span_markup(*run, escaped@));
}

/// The markup that draws the text of `props`, where `escaped[i][j]` is the text of
/// run `j` of paragraph `i` escaped for markup.
pub fn text_markup(props: &TextProps, escaped: &Vec<Vec<String>>) -> (r: String)
    requires
        escaped@.len() == props.blocks@.len(),
        forall|i: int| 0 <= i < escaped@.len() ==> #[trigger] escaped@[i]@.len() == props.blocks@[i].runs@.len(),
    ensures
        r@ == markup_of(props@, escaped_model(escaped@)),
{
    let ghost esc = escaped_model(escaped@);
    let ghost parts = Seq::new(props@.len(), |i: int| block_markup(props@[i], esc[i]));
    let mut r = String::new();
    let n = props.blocks.len();
    let mut i: usize = 0;
    while i < n
        invariant
            n == props.blocks@.len(),
            i <= n,
            escaped@.len() == n,
            forall|k: int| 0 <= k < escaped@.len() ==> #[trigger] escaped@[k]@.len() == props.blocks@[k].runs@.len(),
            esc == escaped_model(escaped@),
            parts == Seq::new(props@.len(), |i: int| block_markup(props@[i], esc[i])),
            r@ == join_lines(parts.take(i as int)),
        decreases n - i,
    {
        if i > 0 {
            r.append("\n");
        }
        let block = &props.blocks[i];
        let runs_escaped = &escaped[i];
        let ghost e = esc[i as int];
        match block.list {
            Some(ListType::Bullet) => r.append("• "),
            Some(ListType::Ordered) => r.append("1. "),
            None => {},
        }
        let ghost start = r@;
        let m = block.runs.len();
        let mut j: usize = 0;
        while j < m
            invariant
                m == block.runs@.len(),
                j <= m,
                runs_escaped@.len() == m,
                e == runs_escaped@.map_values(|s: String| s@),
                r@ == start + runs_markup(block.runs@.take(j as int), e),
            decreases m - j,
        {
            push_span(&mut r, &block.runs[j], &runs_escaped[j]);
            assert(block.runs@.take(j + 1).drop_last() =~= block.runs@.take(j as int));
            j = j + 1;
        }
        proof {
            reveal_strlit("\n");
            assert(block.runs@.take(m as int) =~= block.runs@);
            assert(parts.take(i + 1).drop_last() =~= parts.take(i as int));
            assert(parts[i as int] == block_markup(block@, e));
            if i == 0 {
                assert(parts.take(1) =~= seq![parts[0]]);
            }
        }
        i = i + 1;
    }
    assert(parts.take(n as int) =~= parts);
    r
}

} // verus!
