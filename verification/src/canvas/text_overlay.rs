//! Editing a text element as plain text: one line per paragraph.
use vstd::prelude::*;
use crate::text::push_char;
use crate::model::document::{
    is_default_block, ElementKind, KindModel, TextAttrs, TextBlock, TextBlockModel, TextProps,
    TextRun,
};

verus! {

/// The text of a paragraph: its runs one after the other.
pub open spec fn runs_text(runs: Seq<TextRun>) -> Seq<char>
    decreases runs.len(),
{
    if runs.len() == 0 {
        Seq::empty()
    } else {
        runs_text(runs.drop_last()) + runs.last().text@
    }
}

/// Lines joined with a line feed between each two.
pub open spec fn join_lines(lines: Seq<Seq<char>>) -> Seq<char>
    decreases lines.len(),
{
    if lines.len() == 0 {
        Seq::empty()
    } else if lines.len() == 1 {
        lines[0]
    } else {
        join_lines(lines.drop_last()) + seq!['\n'] + lines.last()
    }
}

/// The pieces of `s` between line feeds: one more piece than there are line feeds.
pub open spec fn split_lines(s: Seq<char>) -> Seq<Seq<char>>
    decreases s.len(),
{
    if s.len() == 0 {
        seq![Seq::empty()]
    } else {
        let pieces = split_lines(s.drop_last());
        if s.last() == '\n' {
            pieces.push(Seq::empty())
        } else {
            pieces.update(pieces.len() - 1, pieces.last().push(s.last()))
        }
    }
}

/// There is always at least one piece.
pub proof fn lemma_split_lines_len(s: Seq<char>)
    ensures
        split_lines(s).len() >= 1,
    decreases s.len(),
{
    if s.len() > 0 {
        lemma_split_lines_len(s.drop_last());
    }
}

/// The plain text of text properties: the paragraphs' texts, one per line.
pub open spec fn plain_text_of(blocks: Seq<TextBlockModel>) -> Seq<char> {
    join_lines(blocks.map_values(|b: TextBlockModel| runs_text(b.runs)))
}

/// The text of `props`, a line per paragraph.
pub fn plain_text(props: &TextProps) -> (r: String)
    ensures
        r@ == plain_text_of(props@),
{
    let ghost texts = props@.map_values(|b: TextBlockModel| runs_text(b.runs));
    let mut r = String::new();
    let n = props.blocks.len();
    let mut i: usize = 0;
    while i < n
        invariant
            n == props.blocks@.len(),
            i <= n,
            texts == props@.map_values(|b: TextBlockModel| runs_text(b.runs)),
            r@ == join_lines(texts.take(i as int)),
        decreases n - i,
    {
        let ghost before = r@;
        if i > 0 {
            r.append("\n");
        }
        let block = &props.blocks[i];
        let m = block.runs.len();
        let ghost start = r@;
        let mut j: usize = 0;
        while j < m
            invariant
                m == block.runs@.len(),
                j <= m,
                r@ == start + runs_text(block.runs@.take(j as int)),
            decreases m - j,
        {
            r.append(block.runs[j].text.as_str());
            assert(block.runs@.take(j + 1).drop_last() =~= block.runs@.take(j as int));
            j = j + 1;
        }
        proof {
            reveal_strlit("\n");
            assert(block.runs@.take(m as int) =~= block.runs@);
            assert(texts.take(i + 1).drop_last() =~= texts.take(i as int));
            assert(texts[i as int] == runs_text(block.runs@));
            if i == 0 {
                assert(texts.take(1) =~= seq![texts[0]]);
            }
        }
        i = i + 1;
    }
    assert(texts.take(n as int) =~= texts);
    r
}

/// The paragraph that a line becomes: the template's layout, one run of the line
/// with the attributes of the template's first run (or plain ones).
pub open spec fn is_line_block(
    b: TextBlockModel,
    line: Seq<char>,
    template: TextBlockModel,
    attrs: TextAttrs,
) -> bool {
    &&& b.align == template.align
    &&& b.font_family == template.font_family
    &&& b.font_size_pt == template.font_size_pt
    &&& b.line_height == template.line_height
    &&& b.list == template.list
    &&& b.runs.len() == 1
    &&& b.runs[0].text@ == line
    &&& b.runs[0].attrs == attrs
}

/// The attributes that a template's first run gives, if it has one.
pub open spec fn template_attrs(template: TextBlockModel, attrs: TextAttrs) -> bool {
    if template.runs.len() > 0 {
        attrs == template.runs[0].attrs
    } else {
        !attrs.bold && !attrs.italic && !attrs.underline && !attrs.strikethrough
            && attrs.color is None
    }
}

/// What editing the content `before` as the plain text `text` makes of it
/// (`after`): a text's paragraphs become the lines of `text`, each laid out like
/// the first paragraph (or a default one) with one run in the attributes of that
/// paragraph's first run; other contents stay as they are.
pub open spec fn plain_update(before: KindModel, text: Seq<char>, after: KindModel) -> bool {
    match before {
        KindModel::Text { blocks } => after matches KindModel::Text { blocks: new_blocks }
            && new_blocks.len() == split_lines(text).len() && exists|
            template: TextBlockModel,
            attrs: TextAttrs,
        |
            {
                &&& (if blocks.len() > 0 {
                    template == blocks[0]
                } else {
                    is_default_block(template)
                })
                &&& template_attrs(template, attrs)
                &&& forall|k: int|
                    0 <= k < new_blocks.len() ==> is_line_block(
                        #[trigger] new_blocks[k],
                        split_lines(text)[k],
                        template,
                        attrs,
                    )
            },
        _ => after == before,
    }
}

/// The lines of `text`.
fn lines_of(text: &str) -> (r: Vec<String>)
    ensures
        r@.map_values(|l: String| l@) == split_lines(text@),
{
    let mut lines: Vec<String> = Vec::new();
    let mut current = String::new();
    for c in it: text.chars()
        invariant
            it.seq() == text@,
            lines@.map_values(|l: String| l@).push(current@) == split_lines(text@.take(it.index() as int)),
    {
        let ghost k = it.index() as int;
        proof {
            assert(text@.take(k + 1).drop_last() =~= text@.take(k));
            assert(text@.take(k + 1).last() == c);
            lemma_split_lines_len(text@.take(k));
        }
        if c == '\n' {
            let ghost before = lines@.map_values(|l: String| l@);
            let done = current;
            lines.push(done);
            current = String::new();
            assert(lines@.map_values(|l: String| l@) =~= before.push(done@));
            assert(lines@.map_values(|l: String| l@).push(current@) =~= before.push(done@).push(Seq::empty()));
        } else {
            let ghost before = lines@.map_values(|l: String| l@).push(current@);
            push_char(&mut current, c);
            assert(lines@.map_values(|l: String| l@).push(current@) =~= before.update(before.len() - 1, before.last().push(c)));
        }
    }
    let ghost before = lines@.map_values(|l: String| l@);
    lines.push(current);
    proof {
        assert(text@.take(text@.len() as int) =~= text@);
        assert(lines@.map_values(|l: String| l@) =~= before.push(current@));
    }
    lines
}

/// Replaces the paragraphs of a text element by the lines of `text`, each laid
/// out like the first paragraph (or a default one); other elements are left alone.
pub fn update_from_plain(kind: &mut ElementKind, text: &str)
    ensures
        plain_update(old(kind)@, text@, final(kind)@),
{
    if let ElementKind::Text { props } = kind {
        let ghost old_blocks = props@;
        let template = if props.blocks.len() > 0 {
            props.blocks[0].clone()
        } else {
            TextBlock::default()
        };
        let attrs = if template.runs.len() > 0 {
            template.runs[0].attrs.clone()
        } else {
            TextAttrs::default()
        };
        let lines = lines_of(text);
        let n = lines.len();
        let mut blocks: Vec<TextBlock> = Vec::new();
        let mut i: usize = 0;
        while i < n
            invariant
                n == lines@.len(),
                i <= n,
                blocks@.len() == i,
                forall|k: int|
                    0 <= k < i ==> is_line_block(
                        #[trigger] blocks@[k]@,
                        lines@[k]@,
                        template@,
                        attrs,
                    ),
            decreases n - i,
        {
            let mut runs = Vec::new();
            runs.push(TextRun { text: lines[i].clone(), attrs: attrs.clone() });
            let block = TextBlock {
                align: template.align,
                font_family: template.font_family.clone(),
                font_size_pt: template.font_size_pt,
                line_height: template.line_height,
                list: template.list,
                runs,
            };
            blocks.push(block);
            i = i + 1;
        }
        props.blocks = blocks;
        proof {
            let new_blocks = props@;
            assert(lines@.map_values(|l: String| l@).len() == n);
            assert forall|k: int| 0 <= k < new_blocks.len() implies is_line_block(
                #[trigger] new_blocks[k],
                split_lines(text@)[k],
                template@,
                attrs,
            ) by {
                assert(new_blocks[k] == blocks@[k]@);
                assert(lines@.map_values(|l: String| l@)[k] == lines@[k]@);
            }
            assert(old(kind)@ == KindModel::Text { blocks: old_blocks });
            assert(if old_blocks.len() > 0 { template@ == old_blocks[0] } else { is_default_block(template@) });
            assert(template_attrs(template@, attrs));
        }
    }
}

/// Turning plain text into paragraphs and back gives the text again.
pub proof fn lemma_plain_text_round_trip(text: Seq<char>)
    ensures
        join_lines(split_lines(text)) == text,
    decreases text.len(),
{
    if text.len() > 0 {
        let t = text.drop_last();
        let c = text.last();
        let pieces = split_lines(t);
        lemma_plain_text_round_trip(t);
        lemma_split_lines_len(t);
        if c == '\n' {
            assert(pieces.push(Seq::empty()).drop_last() =~= pieces);
        } else {
            let q = pieces.update(pieces.len() - 1, pieces.last().push(c));
            if pieces.len() == 1 {
            } else {
                assert(q.drop_last() =~= pieces.drop_last());
            }
        }
        assert(t.push(c) =~= text);
    }
}

/// Editing a text as plain text and reading it back as plain text gives the text
/// that was typed.
pub proof fn lemma_update_then_plain_text(before: KindModel, text: Seq<char>, after: KindModel)
    requires
        before is Text,
        plain_update(before, text, after),
    ensures
        after matches KindModel::Text { blocks } && plain_text_of(blocks) == text,
{
    let blocks = after->Text_blocks;
    let old_blocks = before->Text_blocks;
    let (template, attrs) = choose|template: TextBlockModel, attrs: TextAttrs|
        #![trigger template_attrs(template, attrs)]
        {
            &&& (if old_blocks.len() > 0 {
                template == old_blocks[0]
            } else {
                is_default_block(template)
            })
            &&& template_attrs(template, attrs)
            &&& forall|k: int|
                0 <= k < blocks.len() ==> is_line_block(
                    #[trigger] blocks[k],
                    split_lines(text)[k],
                    template,
                    attrs,
                )
        };
    let texts = blocks.map_values(|b: TextBlockModel| runs_text(b.runs));
    assert forall|k: int| 0 <= k < blocks.len() implies #[trigger] texts[k] == split_lines(text)[k] by {
        assert(is_line_block(blocks[k], split_lines(text)[k], template, attrs));
        let runs = blocks[k].runs;
        assert(runs.drop_last() =~= Seq::<TextRun>::empty());
        assert(runs_text(runs) == runs_text(runs.drop_last()) + runs.last().text@);
    }
    assert(texts =~= split_lines(text));
    lemma_plain_text_round_trip(text);
}

} // verus!
