//! The presentation document: slides, their elements and the theme, with the
//! mathematical model that the editing commands are specified over.
use vstd::prelude::*;

verus! {

// ---------------------------------------------------------------------------
// Quantities that the editor measures in floating point.
// ---------------------------------------------------------------------------

/// A floating-point quantity (a coordinate, a size, an angle, a font size),
/// carried by its IEEE-754 binary64 bit pattern.
///
/// The document model stores, copies and compares such quantities; it never
/// computes with them. The drawing code turns them into `f64` with
/// `f64::from_bits` and back with `f64::to_bits`, which is lossless.
#[derive(Debug, Clone, Copy, PartialEq, Eq, Structural)]
pub struct Scalar(pub u64);

/// Bit pattern of `0.0`.
pub const ZERO: u64 = 0x0;
/// Bit pattern of `420.0`, the width of a new text box.
pub const TEXT_WIDTH: u64 = 0x407a400000000000;
/// Bit pattern of `100.0`, the height of a new text box.
pub const TEXT_HEIGHT: u64 = 0x4059000000000000;
/// Bit pattern of `240.0`, the width of a new shape.
pub const SHAPE_WIDTH: u64 = 0x406e000000000000;
/// Bit pattern of `140.0`, the height of a new shape.
pub const SHAPE_HEIGHT: u64 = 0x4061800000000000;
/// Bit pattern of `480.0`, the width of a new image.
pub const IMAGE_WIDTH: u64 = 0x407e000000000000;
/// Bit pattern of `320.0`, the height of a new image.
pub const IMAGE_HEIGHT: u64 = 0x4074000000000000;
/// Bit pattern of `2.0`, the stroke width of a new shape.
pub const SHAPE_STROKE_WIDTH: u64 = 0x4000000000000000;
/// Bit pattern of `12.0`, the corner radius of a new shape.
pub const SHAPE_CORNER_RADIUS: u64 = 0x4028000000000000;
/// Bit pattern of `28.0`, the font size of a new text block.
pub const BLOCK_FONT_SIZE: u64 = 0x403c000000000000;
/// Bit pattern of `1.2`, the line height of a new text block.
pub const BLOCK_LINE_HEIGHT: u64 = 0x3ff3333333333333;

// ---------------------------------------------------------------------------
// Identifiers
// ---------------------------------------------------------------------------

/// The characters of the URL-safe alphabet that generated identifiers use.
pub open spec fn is_safe_char(c: char) -> bool {
    ||| c == '_'
    ||| c == '-'
    ||| ('0' <= c && c <= '9')
    ||| ('a' <= c && c <= 'z')
    ||| ('A' <= c && c <= 'Z')
}

/// Length of the random part of a generated identifier.
pub const TOKEN_LEN: usize = 6;

/// `s` is an identifier generated for `prefix`: the prefix, an underscore,
/// then six characters of the URL-safe alphabet.
pub open spec fn is_generated_id(s: Seq<char>, prefix: Seq<char>) -> bool {
    &&& s.len() == prefix.len() + 1 + TOKEN_LEN
    &&& s.subrange(0, prefix.len() as int) == prefix
    &&& s[prefix.len() as int] == '_'
    &&& forall|i: int| prefix.len() + 1 <= i < s.len() ==> is_safe_char(#[trigger] s[i])
}

/// Calls `nanoid::format` with the crate's URL-safe alphabet (`nanoid::alphabet::SAFE`,
/// 64 characters) and its default random source (`nanoid::rngs::default`). The
/// crate's source returns exactly `size` characters of that alphabet; which ones is
/// left to chance and is not stated. A `size` of zero would never return, and the
/// crate computes `8 * size`, hence the bounds.
#[verifier::external_body]
fn random_token(size: usize) -> (token: String)
    requires
        0 < size <= usize::MAX / 8,
    ensures
        token@.len() == size,
        forall|i: int| 0 <= i < token@.len() ==> is_safe_char(#[trigger] token@[i]),
{
    nanoid::format(nanoid::rngs::default, &nanoid::alphabet::SAFE, size)
}

/// A fresh identifier for `prefix`, such as `sl_V1StGX`.
fn id(prefix: &str) -> (r: String)
    ensures
        is_generated_id(r@, prefix@),
{
    let token = random_token(TOKEN_LEN);
    let mut r = prefix.to_owned();
    r.append("_");
    r.append(token.as_str());
    proof {
        reveal_strlit("_");
        assert(r@.subrange(0, prefix@.len() as int) =~= prefix@);
        assert forall|i: int| prefix@.len() + 1 <= i < r@.len() implies is_safe_char(#[trigger] r@[i]) by {
            assert(r@[i] == token@[i - prefix@.len() - 1]);
        }
    }
    r
}

// ---------------------------------------------------------------------------
// The document
// ---------------------------------------------------------------------------

/// A presentation.
#[derive(Debug, PartialEq)]
pub struct Document {
    pub schema_version: u32,
    pub theme: Theme,
    pub slide_size: SlideSize,
    pub slides: Vec<Slide>,
}

/// The colours and fonts that a presentation uses.
#[derive(Debug, PartialEq)]
pub struct Theme {
    pub id: String,
    pub font_heading: String,
    pub font_body: String,
    /// Named colours, in the order of their names, each name once.
    pub colors: Vec<(String, String)>,
}

/// The size of a slide in points.
#[derive(Debug, Clone, Copy, PartialEq, Eq, Structural)]
pub struct SlideSize {
    pub width: u32,
    pub height: u32,
}

/// One slide.
#[derive(Debug, PartialEq)]
pub struct Slide {
    pub id: String,
    pub background: Background,
    pub transition: Transition,
    pub notes: String,
    pub elements: Vec<Element>,
}

/// What fills the back of a slide.
#[derive(Debug, PartialEq)]
pub enum Background {
    Color { value: String },
    Gradient { value: String },
    Image { value: String },
}

/// How a slide enters during a show.
#[derive(Debug, Clone, Copy, PartialEq, Eq, Structural)]
pub struct Transition {
    pub kind: TransitionType,
    pub duration_ms: u32,
}

#[derive(Debug, Clone, Copy, PartialEq, Eq, Structural)]
pub enum TransitionType {
    /// The slide appears at once.
    Cut,
    Fade,
    Slide,
}

/// An object placed on a slide.
#[derive(Debug, PartialEq)]
pub struct Element {
    pub id: String,
    pub kind: ElementKind,
    pub frame: Frame,
    pub z: i32,
}

#[derive(Debug, PartialEq)]
#[allow(inconsistent_fields)]
pub enum ElementKind {
    Text { props: TextProps },
    Image { props: ImageProps },
    Shape { props: ShapeProps },
}

/// Position, size and rotation (in degrees) of an element.
#[derive(Debug, Clone, Copy, PartialEq, Eq, Structural)]
pub struct Frame {
    pub x: Scalar,
    pub y: Scalar,
    pub width: Scalar,
    pub height: Scalar,
    pub rotation: Scalar,
}

#[derive(Debug, PartialEq)]
pub struct TextProps {
    pub blocks: Vec<TextBlock>,
}

/// A paragraph of a text element.
#[derive(Debug, PartialEq)]
pub struct TextBlock {
    pub align: TextAlign,
    pub font_family: String,
    pub font_size_pt: Scalar,
    pub line_height: Scalar,
    pub list: Option<ListType>,
    pub runs: Vec<TextRun>,
}

#[derive(Debug, Clone, Copy, PartialEq, Eq, Structural)]
pub enum TextAlign {
    Left,
    Center,
    Right,
    Justify,
}

#[derive(Debug, Clone, Copy, PartialEq, Eq, Structural)]
pub enum ListType {
    Bullet,
    Ordered,
}

/// A stretch of text with one set of attributes.
#[derive(Debug, PartialEq)]
pub struct TextRun {
    pub text: String,
    pub attrs: TextAttrs,
}

#[derive(Debug, PartialEq)]
pub struct TextAttrs {
    pub bold: bool,
    pub italic: bool,
    pub underline: bool,
    pub strikethrough: bool,
    pub color: Option<String>,
}

#[derive(Debug, PartialEq)]
pub struct ImageProps {
    pub src: String,
    pub fit: ImageFit,
}

#[derive(Debug, Clone, Copy, PartialEq, Eq, Structural)]
pub enum ImageFit {
    Contain,
    Cover,
    Fill,
}

#[derive(Debug, PartialEq)]
pub struct ShapeProps {
    pub shape: ShapeType,
    pub fill: String,
    pub stroke: String,
    pub stroke_width: Scalar,
    pub corner_radius: Scalar,
}

#[derive(Debug, Clone, Copy, PartialEq, Eq, Structural)]
pub enum ShapeType {
    Rect,
    Ellipse,
    Line,
    Arrow,
}

// ---------------------------------------------------------------------------
// The mathematical model
// ---------------------------------------------------------------------------

/// The model of a document: its slides as a sequence.
#[verifier::ext_equal]
pub struct DocumentModel {
    pub schema_version: u32,
    pub theme: ThemeModel,
    pub slide_size: SlideSize,
    pub slides: Seq<SlideModel>,
}

#[verifier::ext_equal]
pub struct ThemeModel {
    pub id: Seq<char>,
    pub font_heading: Seq<char>,
    pub font_body: Seq<char>,
    pub colors: Seq<(Seq<char>, Seq<char>)>,
}

/// The model of a slide: identifier and notes as text, elements as a sequence.
#[verifier::ext_equal]
pub struct SlideModel {
    pub id: Seq<char>,
    pub background: Background,
    pub transition: Transition,
    pub notes: Seq<char>,
    pub elements: Seq<ElementModel>,
}

#[verifier::ext_equal]
pub struct ElementModel {
    pub id: Seq<char>,
    pub kind: KindModel,
    pub frame: Frame,
    pub z: i32,
}

#[verifier::ext_equal]
#[allow(inconsistent_fields)]
pub enum KindModel {
    Text { blocks: Seq<TextBlockModel> },
    Image { props: ImageProps },
    Shape { props: ShapeProps },
}

#[verifier::ext_equal]
pub struct TextBlockModel {
    pub align: TextAlign,
    pub font_family: String,
    pub font_size_pt: Scalar,
    pub line_height: Scalar,
    pub list: Option<ListType>,
    pub runs: Seq<TextRun>,
}

impl View for Document {
    type V = DocumentModel;

    open spec fn view(&self) -> DocumentModel {
        DocumentModel {
            schema_version: self.schema_version,
            theme: self.theme@,
            slide_size: self.slide_size,
            slides: slides_model(self.slides@),
        }
    }
}

impl View for Theme {
    type V = ThemeModel;

    open spec fn view(&self) -> ThemeModel {
        ThemeModel {
            id: self.id@,
            font_heading: self.font_heading@,
            font_body: self.font_body@,
            colors: self.colors@.map_values(|c: (String, String)| (c.0@, c.1@)),
        }
    }
}

impl View for Slide {
    type V = SlideModel;

    open spec fn view(&self) -> SlideModel {
        SlideModel {
            id: self.id@,
            background: self.background,
            transition: self.transition,
            notes: self.notes@,
            elements: elements_model(self.elements@),
        }
    }
}

impl View for Element {
    type V = ElementModel;

    open spec fn view(&self) -> ElementModel {
        ElementModel { id: self.id@, kind: self.kind@, frame: self.frame, z: self.z }
    }
}

impl View for ElementKind {
    type V = KindModel;

    open spec fn view(&self) -> KindModel {
        match self {
            ElementKind::Text { props } => KindModel::Text { blocks: props@ },
            ElementKind::Image { props } => KindModel::Image { props: *props },
            ElementKind::Shape { props } => KindModel::Shape { props: *props },
        }
    }
}

impl View for TextProps {
    type V = Seq<TextBlockModel>;

    open spec fn view(&self) -> Seq<TextBlockModel> {
        self.blocks@.map_values(|b: TextBlock| b@)
    }
}

impl View for TextBlock {
    type V = TextBlockModel;

    open spec fn view(&self) -> TextBlockModel {
        TextBlockModel {
            align: self.align,
            font_family: self.font_family,
            font_size_pt: self.font_size_pt,
            line_height: self.line_height,
            list: self.list,
            runs: self.runs@,
        }
    }
}

/// The model of a sequence of elements.
pub open spec fn elements_model(s: Seq<Element>) -> Seq<ElementModel> {
    s.map_values(|e: Element| e@)
}

/// The model of a sequence of slides.
pub open spec fn slides_model(s: Seq<Slide>) -> Seq<SlideModel> {
    s.map_values(|s: Slide| s@)
}

/// Taking the model commutes with replacing one slide.
pub proof fn lemma_slides_model_update(s: Seq<Slide>, i: int, x: Slide)
    requires
        0 <= i < s.len(),
    ensures
        slides_model(s.update(i, x)) == slides_model(s).update(i, x@),
{
    assert(slides_model(s.update(i, x)) =~= slides_model(s).update(i, x@));
}

/// Taking the model commutes with inserting a slide.
pub proof fn lemma_slides_model_insert(s: Seq<Slide>, i: int, x: Slide)
    requires
        0 <= i <= s.len(),
    ensures
        slides_model(s.insert(i, x)) == slides_model(s).insert(i, x@),
{
    assert(slides_model(s.insert(i, x)) =~= slides_model(s).insert(i, x@));
}

/// Taking the model commutes with removing a slide.
pub proof fn lemma_slides_model_remove(s: Seq<Slide>, i: int)
    requires
        0 <= i < s.len(),
    ensures
        slides_model(s.remove(i)) == slides_model(s).remove(i),
{
    assert(slides_model(s.remove(i)) =~= slides_model(s).remove(i));
}

/// Taking the model commutes with appending a slide.
pub proof fn lemma_slides_model_push(s: Seq<Slide>, x: Slide)
    ensures
        slides_model(s.push(x)) == slides_model(s).push(x@),
{
    assert(slides_model(s.push(x)) =~= slides_model(s).push(x@));
}

/// Taking the model commutes with replacing one element.
pub proof fn lemma_elements_model_update(s: Seq<Element>, i: int, x: Element)
    requires
        0 <= i < s.len(),
    ensures
        elements_model(s.update(i, x)) == elements_model(s).update(i, x@),
{
    assert(elements_model(s.update(i, x)) =~= elements_model(s).update(i, x@));
}

/// Taking the model commutes with inserting an element.
pub proof fn lemma_elements_model_insert(s: Seq<Element>, i: int, x: Element)
    requires
        0 <= i <= s.len(),
    ensures
        elements_model(s.insert(i, x)) == elements_model(s).insert(i, x@),
{
    assert(elements_model(s.insert(i, x)) =~= elements_model(s).insert(i, x@));
}

/// Taking the model commutes with appending an element.
pub proof fn lemma_elements_model_push(s: Seq<Element>, x: Element)
    ensures
        elements_model(s.push(x)) == elements_model(s).push(x@),
{
    assert(elements_model(s.push(x)) =~= elements_model(s).push(x@));
}

// ---------------------------------------------------------------------------
// Copies
// ---------------------------------------------------------------------------

impl Clone for Background {
    fn clone(&self) -> (res: Self)
        ensures
            res == *self,
    {
        match self {
            Background::Color { value } => Background::Color { value: value.clone() },
            Background::Gradient { value } => Background::Gradient { value: value.clone() },
            Background::Image { value } => Background::Image { value: value.clone() },
        }
    }
}

impl Clone for TextAttrs {
    fn clone(&self) -> (res: Self)
        ensures
            res == *self,
    {
        let color = match &self.color {
            Some(c) => Some(c.clone()),
            None => None,
        };
        TextAttrs {
            bold: self.bold,
            italic: self.italic,
            underline: self.underline,
            strikethrough: self.strikethrough,
            color,
        }
    }
}

impl Clone for TextRun {
    fn clone(&self) -> (res: Self)
        ensures
            res == *self,
    {
        TextRun { text: self.text.clone(), attrs: self.attrs.clone() }
    }
}

impl Clone for ImageProps {
    fn clone(&self) -> (res: Self)
        ensures
            res == *self,
    {
        ImageProps { src: self.src.clone(), fit: self.fit }
    }
}

impl Clone for ShapeProps {
    fn clone(&self) -> (res: Self)
        ensures
            res == *self,
    {
        ShapeProps {
            shape: self.shape,
            fill: self.fill.clone(),
            stroke: self.stroke.clone(),
            stroke_width: self.stroke_width,
            corner_radius: self.corner_radius,
        }
    }
}

impl Clone for TextBlock {
    fn clone(&self) -> (res: Self)
        ensures
            res@ == self@,
    {
        let runs = self.runs.clone();
        assert(runs@ =~= self.runs@);
        TextBlock {
            align: self.align,
            font_family: self.font_family.clone(),
            font_size_pt: self.font_size_pt,
            line_height: self.line_height,
            list: self.list,
            runs,
        }
    }
}

impl Clone for TextProps {
    fn clone(&self) -> (res: Self)
        ensures
            res@ == self@,
    {
        let blocks = self.blocks.clone();
        assert(blocks@.map_values(|b: TextBlock| b@) =~= self.blocks@.map_values(|b: TextBlock| b@));
        TextProps { blocks }
    }
}

impl Clone for ElementKind {
    fn clone(&self) -> (res: Self)
        ensures
            res@ == self@,
    {
        match self {
            ElementKind::Text { props } => ElementKind::Text { props: props.clone() },
            ElementKind::Image { props } => ElementKind::Image { props: props.clone() },
            ElementKind::Shape { props } => ElementKind::Shape { props: props.clone() },
        }
    }
}

impl Clone for Element {
    fn clone(&self) -> (res: Self)
        ensures
            res@ == self@,
    {
        Element { id: self.id.clone(), kind: self.kind.clone(), frame: self.frame, z: self.z }
    }
}

impl Clone for Theme {
    fn clone(&self) -> (res: Self)
        ensures
            res@ == self@,
    {
        let mut colors: Vec<(String, String)> = Vec::new();
        let n = self.colors.len();
        let mut i: usize = 0;
        while i < n
            invariant
                n == self.colors@.len(),
                i <= n,
                colors@.len() == i,
                forall|k: int| 0 <= k < i ==> #[trigger] colors@[k] == self.colors@[k],
            decreases n - i,
        {
            let pair = &self.colors[i];
            colors.push((pair.0.clone(), pair.1.clone()));
            i = i + 1;
        }
        assert(colors@ =~= self.colors@);
        Theme {
            id: self.id.clone(),
            font_heading: self.font_heading.clone(),
            font_body: self.font_body.clone(),
            colors,
        }
    }
}

impl Clone for Document {
    fn clone(&self) -> (res: Self)
        ensures
            res@ == self@,
    {
        let slides = self.slides.clone();
        assert(slides_model(slides@) =~= slides_model(self.slides@));
        Document {
            schema_version: self.schema_version,
            theme: self.theme.clone(),
            slide_size: self.slide_size,
            slides,
        }
    }
}

impl Clone for Slide {
    fn clone(&self) -> (res: Self)
        ensures
            res@ == self@,
    {
        let elements = self.elements.clone();
        assert(elements_model(elements@) =~= elements_model(self.elements@));
        Slide {
            id: self.id.clone(),
            background: self.background.clone(),
            transition: self.transition,
            notes: self.notes.clone(),
            elements,
        }
    }
}


// ---------------------------------------------------------------------------
// Defaults and constructors
// ---------------------------------------------------------------------------

impl Default for Background {
    /// A white background.
    fn default() -> (r: Self)
        ensures
            r matches Background::Color { value } && value@ == "#FFFFFF"@,
    {
        Background::Color { value: String::from_str("#FFFFFF") }
    }
}

impl Default for Transition {
    /// A fade of 300 ms.
    fn default() -> (r: Self)
        ensures
            r == (Transition { kind: TransitionType::Fade, duration_ms: 300 }),
    {
        Transition { kind: TransitionType::Fade, duration_ms: 300 }
    }
}

impl Default for TextAttrs {
    /// Plain text in the theme's colour.
    fn default() -> (r: Self)
        ensures
            !r.bold && !r.italic && !r.underline && !r.strikethrough,
            r.color is None,
    {
        TextAttrs { bold: false, italic: false, underline: false, strikethrough: false, color: None }
    }
}

/// The paragraph that a new text box holds.
pub open spec fn is_default_block(b: TextBlockModel) -> bool {
    &&& b.align == TextAlign::Left
    &&& b.font_family@ == "Inter"@
    &&& b.font_size_pt == Scalar(BLOCK_FONT_SIZE)
    &&& b.line_height == Scalar(BLOCK_LINE_HEIGHT)
    &&& b.list is None
    &&& b.runs.len() == 1
    &&& b.runs[0].text@ == "Texto"@
    &&& !b.runs[0].attrs.bold && !b.runs[0].attrs.italic
    &&& !b.runs[0].attrs.underline && !b.runs[0].attrs.strikethrough
    &&& b.runs[0].attrs.color is None
}

impl Default for TextBlock {
    /// A left-aligned paragraph in Inter 28 pt, line height 1.2, holding the run "Texto".
    fn default() -> (r: Self)
        ensures
            is_default_block(r@),
    {
        let mut runs = Vec::new();
        runs.push(TextRun { text: String::from_str("Texto"), attrs: TextAttrs::default() });
        TextBlock {
            align: TextAlign::Left,
            font_family: String::from_str("Inter"),
            font_size_pt: Scalar(BLOCK_FONT_SIZE),
            line_height: Scalar(BLOCK_LINE_HEIGHT),
            list: None,
            runs,
        }
    }
}

impl Default for TextProps {
    /// One default paragraph.
    fn default() -> (r: Self)
        ensures
            r@.len() == 1,
            is_default_block(r@[0]),
    {
        let mut blocks = Vec::new();
        blocks.push(TextBlock::default());
        TextProps { blocks }
    }
}

/// Whether `a` comes before `b` in the order of their characters' code points
/// (which is the order of their UTF-8 bytes).
pub open spec fn text_before(a: Seq<char>, b: Seq<char>) -> bool
    decreases a.len(),
{
    if a.len() == 0 {
        b.len() > 0
    } else if b.len() == 0 {
        false
    } else if a[0] != b[0] {
        (a[0] as u32) < (b[0] as u32)
    } else {
        text_before(a.drop_first(), b.drop_first())
    }
}

/// The colours of a theme are in the order of their names, each name once.
pub open spec fn colors_in_order(colors: Seq<(Seq<char>, Seq<char>)>) -> bool {
    forall|i: int, j: int| 0 <= i < j < colors.len() ==> text_before(colors[i].0, colors[j].0)
}

impl ThemeModel {
    /// A theme is well formed where its colours are in the order of their names,
    /// each name once, as in a map ordered by name.
    pub open spec fn well_formed(self) -> bool {
        colors_in_order(self.colors)
    }
}

impl DocumentModel {
    /// A document is well formed where its theme is.
    pub open spec fn well_formed(self) -> bool {
        self.theme.well_formed()
    }
}

/// The theme of a new document.
pub open spec fn is_default_theme(t: ThemeModel) -> bool {
    &&& t.id == "coral-default"@
    &&& t.font_heading == "Inter"@
    &&& t.font_body == "Inter"@
    &&& t.colors == seq![
        ("primary"@, "#FF6F61"@),
        ("primaryDark"@, "#E05548"@),
        ("primaryLight"@, "#FFA396"@),
    ]
}

proof fn lemma_prefix_before(a: Seq<char>, b: Seq<char>, k: int)
    requires
        0 <= k <= a.len(),
        k < b.len(),
        a.take(k) == b.take(k),
        k == a.len() || (a[k] as u32) < (b[k] as u32),
    ensures
        text_before(a, b),
    decreases k,
{
    if k > 0 {
        assert(a[0] == a.take(k)[0] && b[0] == b.take(k)[0]);
        assert(a.drop_first().take(k - 1) =~= a.take(k).drop_first());
        assert(b.drop_first().take(k - 1) =~= b.take(k).drop_first());
        lemma_prefix_before(a.drop_first(), b.drop_first(), k - 1);
    }
}

proof fn lemma_default_colors_in_order()
    ensures
        colors_in_order(seq![
            ("primary"@, "#FF6F61"@),
            ("primaryDark"@, "#E05548"@),
            ("primaryLight"@, "#FFA396"@),
        ]),
{
    reveal_strlit("primary");
    reveal_strlit("primaryDark");
    reveal_strlit("primaryLight");
    let p = "primary"@;
    let d = "primaryDark"@;
    let l = "primaryLight"@;
    assert(p.take(7) =~= d.take(7));
    assert(p.take(7) =~= l.take(7));
    assert(d.take(7) =~= l.take(7));
    lemma_prefix_before(p, d, 7);
    lemma_prefix_before(p, l, 7);
    lemma_prefix_before(d, l, 7);
}

impl Default for Theme {
    /// The coral theme: Inter for headings and body, three named colours.
    fn default() -> (r: Self)
        ensures
            is_default_theme(r@),
            r@.well_formed(),
    {
        let mut colors = Vec::new();
        colors.push((String::from_str("primary"), String::from_str("#FF6F61")));
        colors.push((String::from_str("primaryDark"), String::from_str("#E05548")));
        colors.push((String::from_str("primaryLight"), String::from_str("#FFA396")));
        let r = Theme {
            id: String::from_str("coral-default"),
            font_heading: String::from_str("Inter"),
            font_body: String::from_str("Inter"),
            colors,
        };
        assert(r@.colors =~= seq![
            ("primary"@, "#FF6F61"@),
            ("primaryDark"@, "#E05548"@),
            ("primaryLight"@, "#FFA396"@),
        ]);
        proof {
            lemma_default_colors_in_order();
        }
        r
    }
}

/// A slide freshly made on `background`: a new identifier, the default
/// transition, no notes, no elements.
pub open spec fn is_new_slide(s: SlideModel, background: Background) -> bool {
    &&& is_generated_id(s.id, "sl"@)
    &&& s.background == background
    &&& s.transition == (Transition { kind: TransitionType::Fade, duration_ms: 300 })
    &&& s.notes.len() == 0
    &&& s.elements.len() == 0
}

impl Default for Document {
    /// Schema version 1, the default theme, 1280 × 720, one white slide.
    fn default() -> (r: Self)
        ensures
            r@.schema_version == 1,
            is_default_theme(r@.theme),
            r@.well_formed(),
            r@.slide_size == (SlideSize { width: 1280, height: 720 }),
            r@.slides.len() == 1,
            is_new_slide(r@.slides[0], r.slides@[0].background),
            r.slides@[0].background matches Background::Color { value } && value@ == "#FFFFFF"@,
    {
        let mut slides = Vec::new();
        slides.push(Slide::new(Background::default()));
        proof {
            lemma_default_colors_in_order();
        }
        Document {
            schema_version: 1,
            theme: Theme::default(),
            slide_size: SlideSize { width: 1280, height: 720 },
            slides,
        }
    }
}

impl Slide {
    /// An empty slide on `background`.
    pub fn new(background: Background) -> (r: Self)
        ensures
            is_new_slide(r@, background),
    {
        Slide {
            id: id("sl"),
            background,
            transition: Transition::default(),
            notes: String::new(),
            elements: Vec::new(),
        }
    }

    /// A copy of this slide under a new identifier, each element under a new
    /// identifier too; everything else is kept.
    pub fn duplicate(&self) -> (r: Self)
        ensures
            is_generated_id(r@.id, "sl"@),
            r@.background == self@.background,
            r@.transition == self@.transition,
            r@.notes == self@.notes,
            r@.elements.len() == self@.elements.len(),
            forall|i: int|
                #![trigger r@.elements[i]]
                0 <= i < r@.elements.len() ==> {
                    &&& is_generated_id(r@.elements[i].id, "el"@)
                    &&& r@.elements[i].kind == self@.elements[i].kind
                    &&& r@.elements[i].frame == self@.elements[i].frame
                    &&& r@.elements[i].z == self@.elements[i].z
                },
    {
        let mut elements: Vec<Element> = Vec::new();
        let n = self.elements.len();
        let mut i: usize = 0;
        while i < n
            invariant
                n == self.elements@.len(),
                i <= n,
                elements@.len() == i,
                forall|j: int|
                    #![trigger elements@[j]]
                    0 <= j < i ==> {
                        &&& is_generated_id(elements@[j]@.id, "el"@)
                        &&& elements@[j]@.kind == self.elements@[j]@.kind
                        &&& elements@[j].frame == self.elements@[j].frame
                        &&& elements@[j].z == self.elements@[j].z
                    },
            decreases n - i,
        {
            let source = &self.elements[i];
            let copy = Element {
                id: id("el"),
                kind: source.kind.clone(),
                frame: source.frame,
                z: source.z,
            };
            elements.push(copy);
            i = i + 1;
        }
        Slide {
            id: id("sl"),
            background: self.background.clone(),
            transition: self.transition,
            notes: self.notes.clone(),
            elements,
        }
    }
}

/// A new element of `kind` at (`x`, `y`), `width` × `height`, unrotated, at depth 1.
pub open spec fn is_new_element(
    e: ElementModel,
    kind: KindModel,
    x: Scalar,
    y: Scalar,
    width: u64,
    height: u64,
) -> bool {
    &&& is_generated_id(e.id, "el"@)
    &&& e.kind == kind
    &&& e.frame == (Frame {
        x,
        y,
        width: Scalar(width),
        height: Scalar(height),
        rotation: Scalar(ZERO),
    })
    &&& e.z == 1
}

impl Element {
    /// A 420 × 100 text box at (`x`, `y`) holding one default paragraph.
    pub fn text(x: Scalar, y: Scalar) -> (r: Self)
        ensures
            r@.kind matches KindModel::Text { blocks } && blocks.len() == 1 && is_default_block(
                blocks[0],
            ),
            is_new_element(r@, r@.kind, x, y, TEXT_WIDTH, TEXT_HEIGHT),
    {
        Element {
            id: id("el"),
            kind: ElementKind::Text { props: TextProps::default() },
            frame: Frame {
                x,
                y,
                width: Scalar(TEXT_WIDTH),
                height: Scalar(TEXT_HEIGHT),
                rotation: Scalar(ZERO),
            },
            z: 1,
        }
    }

    /// A 240 × 140 `shape` at (`x`, `y`): coral fill `#FF6F61`, stroke `#E05548`
    /// of width 2, corner radius 12.
    pub fn shape(shape: ShapeType, x: Scalar, y: Scalar) -> (r: Self)
        ensures
            r@.kind matches KindModel::Shape { props } && props.shape == shape && props.fill@
                == "#FF6F61"@ && props.stroke@ == "#E05548"@ && props.stroke_width == Scalar(
                SHAPE_STROKE_WIDTH,
            ) && props.corner_radius == Scalar(SHAPE_CORNER_RADIUS),
            is_new_element(r@, r@.kind, x, y, SHAPE_WIDTH, SHAPE_HEIGHT),
    {
        Element {
            id: id("el"),
            kind: ElementKind::Shape {
                props: ShapeProps {
                    shape,
                    fill: String::from_str("#FF6F61"),
                    stroke: String::from_str("#E05548"),
                    stroke_width: Scalar(SHAPE_STROKE_WIDTH),
                    corner_radius: Scalar(SHAPE_CORNER_RADIUS),
                },
            },
            frame: Frame {
                x,
                y,
                width: Scalar(SHAPE_WIDTH),
                height: Scalar(SHAPE_HEIGHT),
                rotation: Scalar(ZERO),
            },
            z: 1,
        }
    }

    /// A 480 × 320 image of `src` at (`x`, `y`), fitted inside its frame.
    pub fn image(src: String, x: Scalar, y: Scalar) -> (r: Self)
        ensures
            r@.kind == (KindModel::Image { props: ImageProps { src, fit: ImageFit::Contain } }),
            is_new_element(r@, r@.kind, x, y, IMAGE_WIDTH, IMAGE_HEIGHT),
    {
        Element {
            id: id("el"),
            kind: ElementKind::Image { props: ImageProps { src, fit: ImageFit::Contain } },
            frame: Frame {
                x,
                y,
                width: Scalar(IMAGE_WIDTH),
                height: Scalar(IMAGE_HEIGHT),
                rotation: Scalar(ZERO),
            },
            z: 1,
        }
    }
}

} // verus!
