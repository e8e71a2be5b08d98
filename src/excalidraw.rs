//! The elements of a drawing file, the file itself, and what it means
//! for a value to be drawn onto it.

pub mod elements;

use vstd::prelude::*;

verus! {

/// One shape of a drawing, placed by its top-left corner.
pub enum Element {
    Text {
        x: i32,
        y: i32,
        width: i32,
        height: i32,
        angle: i32,
        stroke_color: String,
        background_color: String,
        fill_style: String,
        stroke_width: i32,
        stroke_style: String,
        roughness: i32,
        opacity: i32,
        stroke_sharpness: String,
        locked: bool,
        text: String,
        font_size: i32,
        font_family: i32,
        text_align: String,
        vertical_align: String,
        baseline: i32,
    },
    Line {
        x: i32,
        y: i32,
        width: i32,
        height: i32,
        angle: i32,
        stroke_color: String,
        background_color: String,
        fill_style: String,
        stroke_width: i32,
        stroke_style: String,
        roughness: i32,
        opacity: i32,
        stroke_sharpness: String,
        locked: bool,
        points: Vec<[i32; 2]>,
    },
    Rectangle {
        x: i32,
        y: i32,
        width: i32,
        height: i32,
        angle: i32,
        stroke_color: String,
        background_color: String,
        fill_style: String,
        stroke_width: i32,
        stroke_style: String,
        roughness: i32,
        opacity: i32,
        stroke_sharpness: String,
        locked: bool,
    },
}

/// Whether `v` can be stored in an `i32`.
pub open spec fn in_i32(v: int) -> bool {
    i32::MIN <= v <= i32::MAX
}

/// Number of `'\n'` characters in `s`.
pub open spec fn newline_count(s: Seq<char>) -> nat
    decreases s.len(),
{
    if s.len() == 0 {
        0
    } else {
        newline_count(s.drop_last()) + if s.last() == '\n' { 1nat } else { 0nat }
    }
}

/// Number of lines of `s`: a final line break ends the last line and does
/// not open a new one, and the empty text has no line.
pub open spec fn line_count(s: Seq<char>) -> nat {
    if s.len() == 0 {
        0
    } else if s.last() == '\n' {
        newline_count(s)
    } else {
        newline_count(s) + 1
    }
}

/// Width of a small monospaced text: 9 units per character and 4 of margin.
pub open spec fn text_width(text: Seq<char>) -> int {
    4 + 9 * text.len() as int
}

/// Height of a small monospaced text: 19 units per line.
pub open spec fn text_height(text: Seq<char>) -> int {
    19 * line_count(text) as int
}

/// Coordinate `axis` (0 for x, 1 for y) of a point.
pub open spec fn coord(p: (int, int), axis: int) -> int {
    if axis == 0 {
        p.0
    } else {
        p.1
    }
}

/// Largest coordinate `axis` among the points and the origin.
pub open spec fn max_coord(pts: Seq<(int, int)>, axis: int) -> int
    decreases pts.len(),
{
    if pts.len() == 0 {
        0
    } else {
        let m = max_coord(pts.drop_last(), axis);
        if coord(pts.last(), axis) > m {
            coord(pts.last(), axis)
        } else {
            m
        }
    }
}

/// Smallest coordinate `axis` among the points and the origin.
pub open spec fn min_coord(pts: Seq<(int, int)>, axis: int) -> int
    decreases pts.len(),
{
    if pts.len() == 0 {
        0
    } else {
        let m = min_coord(pts.drop_last(), axis);
        if coord(pts.last(), axis) < m {
            coord(pts.last(), axis)
        } else {
            m
        }
    }
}

/// Size along `axis` of the box that holds the points and the origin.
pub open spec fn extent(pts: Seq<(int, int)>, axis: int) -> int {
    max_coord(pts, axis) - min_coord(pts, axis)
}

/// The points of a line as pairs of integers.
pub open spec fn pairs(pts: Seq<[i32; 2]>) -> Seq<(int, int)> {
    pts.map_values(|p: [i32; 2]| (p[0] as int, p[1] as int))
}

/// The style that plain elements share: black solid sharp strokes of width
/// one, a transparent hachure background, full opacity, no rotation and no
/// roughness.
pub open spec fn plain_style(
    angle: i32,
    stroke_color: String,
    background_color: String,
    fill_style: String,
    stroke_width: i32,
    stroke_style: String,
    roughness: i32,
    opacity: i32,
    stroke_sharpness: String,
) -> bool {
    &&& angle == elements::ANGLE
    &&& stroke_color@ == elements::STROKE_COLOR@
    &&& background_color@ == elements::BACKGROUND_COLOR@
    &&& fill_style@ == elements::FILL_STYLE@
    &&& stroke_width == elements::STROKE_WIDTH
    &&& stroke_style@ == elements::STROKE_STYLE@
    &&& roughness == 0
    &&& opacity == elements::OPACITY
    &&& stroke_sharpness@ == elements::STROKE_SHARPNESS@
}

/// `e` is a small monospaced text at `(x, y)` that reads `text`, sized to it.
pub open spec fn is_small_text(e: Element, x: int, y: int, locked: bool, text: Seq<char>) -> bool {
    match e {
        Element::Text {
            x: ex,
            y: ey,
            width,
            height,
            angle,
            stroke_color,
            background_color,
            fill_style,
            stroke_width,
            stroke_style,
            roughness,
            opacity,
            stroke_sharpness,
            locked: el,
            text: et,
            font_size,
            font_family,
            text_align,
            vertical_align,
            baseline,
        } => {
            &&& ex == x
            &&& ey == y
            &&& width == text_width(text)
            &&& height == text_height(text)
            &&& plain_style(
                angle,
                stroke_color,
                background_color,
                fill_style,
                stroke_width,
                stroke_style,
                roughness,
                opacity,
                stroke_sharpness,
            )
            &&& el == locked
            &&& et@ == text
            &&& font_size == elements::FONT_SIZE_SMALL
            &&& font_family == elements::FONT_FAMILY_MONOSPACE
            &&& text_align@ == elements::TEXT_ALIGN_LEFT@
            &&& vertical_align@ == elements::VERTICAL_ALIGN_TOP@
            &&& baseline == elements::BASELINE
        },
        _ => false,
    }
}

/// `e` is a plain line at `(x, y)` through `points`, sized to their box.
pub open spec fn is_simple_line(
    e: Element,
    x: int,
    y: int,
    locked: bool,
    points: Seq<(int, int)>,
) -> bool {
    match e {
        Element::Line {
            x: ex,
            y: ey,
            width,
            height,
            angle,
            stroke_color,
            background_color,
            fill_style,
            stroke_width,
            stroke_style,
            roughness,
            opacity,
            stroke_sharpness,
            locked: el,
            points: ep,
        } => {
            &&& ex == x
            &&& ey == y
            &&& width == extent(points, 0)
            &&& height == extent(points, 1)
            &&& plain_style(
                angle,
                stroke_color,
                background_color,
                fill_style,
                stroke_width,
                stroke_style,
                roughness,
                opacity,
                stroke_sharpness,
            )
            &&& el == locked
            &&& pairs(ep@) == points
        },
        _ => false,
    }
}

/// `e` is a plain rectangle with the given corner and size.
pub open spec fn is_simple_rectangle(
    e: Element,
    x: int,
    y: int,
    width: int,
    height: int,
    locked: bool,
) -> bool {
    match e {
        Element::Rectangle {
            x: ex,
            y: ey,
            width: ew,
            height: eh,
            angle,
            stroke_color,
            background_color,
            fill_style,
            stroke_width,
            stroke_style,
            roughness,
            opacity,
            stroke_sharpness,
            locked: el,
        } => {
            &&& ex == x
            &&& ey == y
            &&& ew == width
            &&& eh == height
            &&& plain_style(
                angle,
                stroke_color,
                background_color,
                fill_style,
                stroke_width,
                stroke_style,
                roughness,
                opacity,
                stroke_sharpness,
            )
            &&& el == locked
        },
        _ => false,
    }
}

impl Element {
    pub fn text(
        x: i32,
        y: i32,
        width: i32,
        height: i32,
        angle: i32,
        stroke_color: String,
        background_color: String,
        fill_style: String,
        stroke_width: i32,
        stroke_style: String,
        opacity: i32,
        stroke_sharpness: String,
        locked: bool,
        text: String,
        font_size: i32,
        font_family: i32,
        text_align: String,
        vertical_align: String,
    ) -> (r: Self)
        ensures
            r == (Element::Text {
                x,
                y,
                width,
                height,
                angle,
                stroke_color,
                background_color,
                fill_style,
                stroke_width,
                stroke_style,
                roughness: 0,
                opacity,
                stroke_sharpness,
                locked,
                text,
                font_size,
                font_family,
                text_align,
                vertical_align,
                baseline: elements::BASELINE,
            }),
    {
        Element::Text {
            x,
            y,
            width,
            height,
            angle,
            stroke_color,
            background_color,
            fill_style,
            stroke_width,
            stroke_style,
            roughness: 0,
            opacity,
            stroke_sharpness,
            locked,
            text,
            font_size,
            font_family,
            text_align,
            vertical_align,
            baseline: elements::BASELINE,
        }
    }

    pub fn line(
        x: i32,
        y: i32,
        width: i32,
        height: i32,
        angle: i32,
        stroke_color: String,
        background_color: String,
        fill_style: String,
        stroke_width: i32,
        stroke_style: String,
        opacity: i32,
        stroke_sharpness: String,
        locked: bool,
        points: Vec<[i32; 2]>,
    ) -> (r: Self)
        ensures
            r == (Element::Line {
                x,
                y,
                width,
                height,
                angle,
                stroke_color,
                background_color,
                fill_style,
                stroke_width,
                stroke_style,
                roughness: 0,
                opacity,
                stroke_sharpness,
                locked,
                points,
            }),
    {
        Element::Line {
            x,
            y,
            width,
            height,
            angle,
            stroke_color,
            background_color,
            fill_style,
            stroke_width,
            stroke_style,
            roughness: 0,
            opacity,
            stroke_sharpness,
            locked,
            points,
        }
    }

    pub fn rectangle(
        x: i32,
        y: i32,
        width: i32,
        height: i32,
        angle: i32,
        stroke_color: String,
        background_color: String,
        fill_style: String,
        stroke_width: i32,
        stroke_style: String,
        opacity: i32,
        stroke_sharpness: String,
        locked: bool,
    ) -> (r: Self)
        ensures
            r == (Element::Rectangle {
                x,
                y,
                width,
                height,
                angle,
                stroke_color,
                background_color,
                fill_style,
                stroke_width,
                stroke_style,
                roughness: 0,
                opacity,
                stroke_sharpness,
                locked,
            }),
    {
        Element::Rectangle {
            x,
            y,
            width,
            height,
            angle,
            stroke_color,
            background_color,
            fill_style,
            stroke_width,
            stroke_style,
            roughness: 0,
            opacity,
            stroke_sharpness,
            locked,
        }
    }
}

/// There are no more line breaks than characters.
proof fn lemma_newline_count_bound(s: Seq<char>)
    ensures
        newline_count(s) <= s.len(),
    decreases s.len(),
{
    if s.len() > 0 {
        lemma_newline_count_bound(s.drop_last());
    }
}

/// Number of lines of `text`, as `str::lines` counts them.
pub(crate) fn count_lines(text: &str) -> (r: usize)
    ensures
        r == line_count(text@),
{
    let n = text.unicode_len();
    let mut count: usize = 0;
    let mut i: usize = 0;
    while i < n
        invariant
            n == text@.len(),
            i <= n,
            count == newline_count(text@.take(i as int)),
            count <= i,
        decreases n - i,
    {
        let c = text.get_char(i);
        assert(text@.take(i + 1).drop_last() =~= text@.take(i as int));
        if c == '\n' {
            count = count + 1;
        }
        i = i + 1;
    }
    assert(text@.take(n as int) =~= text@);
    if n == 0 {
        0
    } else if text.get_char(n - 1) == '\n' {
        count
    } else {
        proof {
            lemma_newline_count_bound(text@.drop_last());
        }
        count + 1
    }
}

impl Element {
    /// A small monospaced text at `(x, y)`, in the plain style, sized to what
    /// it reads.
    pub fn draw_small_monospaced_text(x: i32, y: i32, locked: bool, text: String) -> (r: Self)
        requires
            text_width(text@) <= i32::MAX,
            text_height(text@) <= i32::MAX,
        ensures
            is_small_text(r, x as int, y as int, locked, text@),
            r matches Element::Text { text: t, .. } && t == text,
    {
        let chars = text.as_str().unicode_len();
        let lines = count_lines(text.as_str());
        let width = (4 + chars * 9) as i32;
        let height = (lines * 19) as i32;
        Self::text(
            x,
            y,
            width,
            height,
            0,
            String::from_str(elements::STROKE_COLOR),
            String::from_str(elements::BACKGROUND_COLOR),
            String::from_str(elements::FILL_STYLE),
            elements::STROKE_WIDTH,
            String::from_str(elements::STROKE_STYLE),
            elements::OPACITY,
            String::from_str(elements::STROKE_SHARPNESS),
            locked,
            text,
            elements::FONT_SIZE_SMALL,
            elements::FONT_FAMILY_MONOSPACE,
            String::from_str(elements::TEXT_ALIGN_LEFT),
            String::from_str(elements::VERTICAL_ALIGN_TOP),
        )
    }

    /// A plain line at `(x, y)` through `points`, given relative to `(x, y)`;
    /// its size is that of the box that holds the points and `(x, y)` itself.
    pub fn simple_line(x: i32, y: i32, locked: bool, points: Vec<[i32; 2]>) -> (r: Self)
        requires
            extent(pairs(points@), 0) <= i32::MAX,
            extent(pairs(points@), 1) <= i32::MAX,
        ensures
            is_simple_line(r, x as int, y as int, locked, pairs(points@)),
            r matches Element::Line { points: p, .. } && p == points,
    {
        let ghost pts = pairs(points@);
        let mut min_x: i32 = 0;
        let mut max_x: i32 = 0;
        let mut min_y: i32 = 0;
        let mut max_y: i32 = 0;
        let mut i: usize = 0;
        while i < points.len()
            invariant
                pts == pairs(points@),
                i <= points@.len(),
                min_x == min_coord(pts.take(i as int), 0),
                max_x == max_coord(pts.take(i as int), 0),
                min_y == min_coord(pts.take(i as int), 1),
                max_y == max_coord(pts.take(i as int), 1),
            decreases points@.len() - i,
        {
            let p = points[i];
            assert(pts.take(i + 1).drop_last() =~= pts.take(i as int));
            assert(pts.take(i + 1).last() == (p[0] as int, p[1] as int));
            if p[0] > max_x {
                max_x = p[0];
            }
            if p[0] < min_x {
                min_x = p[0];
            }
            if p[1] > max_y {
                max_y = p[1];
            }
            if p[1] < min_y {
                min_y = p[1];
            }
            i = i + 1;
        }
        assert(pts.take(points@.len() as int) =~= pts);
        Self::line(
            x,
            y,
            max_x - min_x,
            max_y - min_y,
            elements::ANGLE,
            String::from_str(elements::STROKE_COLOR),
            String::from_str(elements::BACKGROUND_COLOR),
            String::from_str(elements::FILL_STYLE),
            elements::STROKE_WIDTH,
            String::from_str(elements::STROKE_STYLE),
            elements::OPACITY,
            String::from_str(elements::STROKE_SHARPNESS),
            locked,
            points,
        )
    }

    /// A plain rectangle with the given corner and size.
    pub fn simple_rectangle(x: i32, y: i32, width: i32, height: i32, locked: bool) -> (r: Self)
        ensures
            is_simple_rectangle(r, x as int, y as int, width as int, height as int, locked),
    {
        Self::rectangle(
            x,
            y,
            width,
            height,
            elements::ANGLE,
            String::from_str(elements::STROKE_COLOR),
            String::from_str(elements::BACKGROUND_COLOR),
            String::from_str(elements::FILL_STYLE),
            elements::STROKE_WIDTH,
            String::from_str(elements::STROKE_STYLE),
            elements::OPACITY,
            String::from_str(elements::STROKE_SHARPNESS),
            locked,
        )
    }
}

/// The `serde_json::Map` that a drawing file keeps its attachments in.
#[verifier::external_type_specification]
#[verifier::external_body]
#[verifier::reject_recursive_types(K)]
#[verifier::reject_recursive_types(V)]
pub struct ExJsonMap<K, V>(serde_json::Map<K, V>);

/// A JSON value, as `serde_json` holds it.
#[verifier::external_type_specification]
#[verifier::external_body]
pub struct ExJsonValue(serde_json::Value);

/// The keys of a JSON object.
pub uninterp spec fn json_keys(m: serde_json::Map<String, serde_json::Value>) -> Set<Seq<char>>;

/// Relies on serde_json's `Map::with_capacity`: it makes a map with no entry
/// (the capacity is only a hint for allocation).
pub assume_specification[ serde_json::Map::<String, serde_json::Value>::with_capacity ](
    capacity: usize,
) -> (r: serde_json::Map<String, serde_json::Value>)
    ensures
        json_keys(r) == Set::<Seq<char>>::empty(),
;

/// Settings of the drawing program that a file carries.
pub struct AppState {
    pub grid_size: i32,
    pub view_background_color: String,
}

impl Default for AppState {
    /// A grid of 20 units on a white background.
    fn default() -> (r: Self)
        ensures
            r.grid_size == 20,
            r.view_background_color@ == "#ffffff"@,
    {
        AppState { grid_size: 20, view_background_color: String::from_str("#ffffff") }
    }
}

/// A drawing file: its elements in drawing order, and the settings it is
/// opened with.
pub struct ExcalidrawFile {
    pub file_type: String,
    pub version: i32,
    pub source: Option<String>,
    pub elements: Vec<Element>,
    pub app_state: AppState,
    pub files: serde_json::Map<String, serde_json::Value>,
}

impl Default for ExcalidrawFile {
    /// An empty file of format version 2 with the default settings.
    fn default() -> (r: Self)
        ensures
            r.file_type@ == "excalidraw"@,
            r.version == 2,
            r.source is None,
            r.elements@.len() == 0,
            r.app_state.grid_size == 20,
            r.app_state.view_background_color@ == "#ffffff"@,
            json_keys(r.files) == Set::<Seq<char>>::empty(),
    {
        ExcalidrawFile {
            file_type: String::from_str("excalidraw"),
            version: 2,
            source: None,
            elements: Vec::new(),
            app_state: AppState::default(),
            files: serde_json::Map::with_capacity(0),
        }
    }
}

/// What a drawable value adds to a file, stated over integers: a text of
/// the small monospaced kind, or a line through points relative to its
/// corner.
pub enum Shape {
    Label { x: int, y: int, text: Seq<char> },
    Stroke { x: int, y: int, points: Seq<(int, int)> },
}

/// Every number that the element for `s` holds can be stored in an `i32`.
pub open spec fn shape_fits(s: Shape) -> bool {
    match s {
        Shape::Label { x, y, text } => {
            &&& in_i32(x)
            &&& in_i32(y)
            &&& text_width(text) <= i32::MAX
            &&& text_height(text) <= i32::MAX
        },
        Shape::Stroke { x, y, points } => {
            &&& in_i32(x)
            &&& in_i32(y)
            &&& extent(points, 0) <= i32::MAX
            &&& extent(points, 1) <= i32::MAX
            &&& forall|i: int|
                0 <= i < points.len() ==> in_i32((#[trigger] points[i]).0) && in_i32(points[i].1)
        },
    }
}

/// `e` is the element that draws `s`.
pub open spec fn shows(e: Element, s: Shape, locked: bool) -> bool {
    match s {
        Shape::Label { x, y, text } => is_small_text(e, x, y, locked, text),
        Shape::Stroke { x, y, points } => is_simple_line(e, x, y, locked, points),
    }
}

/// `after` is `before` with one element for each of the first `count` of
/// `shapes` added at the end, in order, and nothing else changed.
pub open spec fn drawn_first(
    before: ExcalidrawFile,
    after: ExcalidrawFile,
    shapes: Seq<Shape>,
    locked: bool,
    count: int,
) -> bool {
    let n = before.elements@.len();
    &&& after.file_type == before.file_type
    &&& after.version == before.version
    &&& after.source == before.source
    &&& after.app_state == before.app_state
    &&& after.files == before.files
    &&& after.elements@.len() == n + count
    &&& after.elements@.take(n as int) == before.elements@
    &&& forall|i: int|
        0 <= i < count ==> shows(#[trigger] after.elements@[n + i], shapes[i], locked)
}

/// `after` is `before` with one element for each of `shapes` added at the
/// end, in order, and nothing else changed.
pub open spec fn drawn_onto(
    before: ExcalidrawFile,
    after: ExcalidrawFile,
    shapes: Seq<Shape>,
    locked: bool,
) -> bool {
    drawn_first(before, after, shapes, locked, shapes.len() as int)
}

/// Adding the element for the next shape draws one shape more.
pub proof fn lemma_draw_next(
    before: ExcalidrawFile,
    prev: ExcalidrawFile,
    after: ExcalidrawFile,
    shapes: Seq<Shape>,
    locked: bool,
    count: int,
    e: Element,
)
    requires
        0 <= count,
        drawn_first(before, prev, shapes, locked, count),
        after.elements@ == prev.elements@.push(e),
        after.file_type == prev.file_type,
        after.version == prev.version,
        after.source == prev.source,
        after.app_state == prev.app_state,
        after.files == prev.files,
        shows(e, shapes[count], locked),
    ensures
        drawn_first(before, after, shapes, locked, count + 1),
{
    let n = before.elements@.len();
    assert(after.elements@.take(n as int) =~= prev.elements@.take(n as int));
    assert forall|i: int| 0 <= i < count + 1 implies shows(
        #[trigger] after.elements@[n + i],
        shapes[i],
        locked,
    ) by {
        if i < count {
            assert(after.elements@[n + i] == prev.elements@[n + i]);
        }
    }
}

/// A value that can be laid out onto a drawing file.
pub trait Drawable {
    /// The shapes that drawing at `(x, y)` on a grid of `grid_size` adds,
    /// in order.
    spec fn shapes(&self, grid_size: int, x: int, y: int) -> Seq<Shape>;

    /// Width and height of the drawing on a grid of `grid_size`.
    spec fn drawn_size(&self, grid_size: int) -> (int, int);

    /// Drawing at `(x, y)` on a grid of `grid_size` computes nothing that
    /// an `i32` cannot hold.
    spec fn fits(&self, grid_size: int, x: int, y: int) -> bool;

    /// Draw the element onto a file
    ///
    /// Returns the width and height of the drawn element
    fn draw(&self, file: &mut ExcalidrawFile, x: i32, y: i32, locked: bool) -> (r: (i32, i32))
        requires
            self.fits(old(file).app_state.grid_size as int, x as int, y as int),
        ensures
            drawn_onto(
                *old(file),
                *final(file),
                self.shapes(old(file).app_state.grid_size as int, x as int, y as int),
                locked,
            ),
            r.0 == self.drawn_size(old(file).app_state.grid_size as int).0,
            r.1 == self.drawn_size(old(file).app_state.grid_size as int).1,
    ;
}

impl ExcalidrawFile {
    /// Draws `element` with its top-left corner at `(x, y)` and returns its
    /// width and height.
    pub fn draw(&mut self, element: &impl Drawable, x: i32, y: i32, locked: bool) -> (r: (i32, i32))
        requires
            element.fits(old(self).app_state.grid_size as int, x as int, y as int),
        ensures
            drawn_onto(
                *old(self),
                *final(self),
                element.shapes(old(self).app_state.grid_size as int, x as int, y as int),
                locked,
            ),
            r.0 == element.drawn_size(old(self).app_state.grid_size as int).0,
            r.1 == element.drawn_size(old(self).app_state.grid_size as int).1,
    {
        element.draw(self, x, y, locked)
    }
}

/// The points as pairs of integers.
pub open spec fn wide_pairs(pts: Seq<(i128, i128)>) -> Seq<(int, int)> {
    pts.map_values(|p: (i128, i128)| (p.0 as int, p.1 as int))
}

/// Whether the element for a small text at `(x, y)` that reads `text`
/// can hold its numbers.
pub(crate) fn label_fits(x: i128, y: i128, text: &str) -> (b: bool)
    ensures
        b == shape_fits(Shape::Label { x: x as int, y: y as int, text: text@ }),
{
    if x < i32::MIN as i128 || x > i32::MAX as i128 || y < i32::MIN as i128 || y > i32::MAX as i128 {
        return false;
    }
    let len = text.unicode_len();
    // the largest length whose width 4 + 9 * len fits: (i32::MAX - 4) / 9
    if len > 238609293 {
        return false;
    }
    let lines = count_lines(text);
    // the most lines whose height 19 * lines fits: i32::MAX / 19
    lines <= 113025455
}

/// Whether the element for a line at `(x, y)` through `pts` can hold its
/// numbers.
pub(crate) fn stroke_fits(x: i128, y: i128, pts: &Vec<(i128, i128)>) -> (b: bool)
    ensures
        b == shape_fits(Shape::Stroke { x: x as int, y: y as int, points: wide_pairs(pts@) }),
{
    let ghost ps = wide_pairs(pts@);
    if x < i32::MIN as i128 || x > i32::MAX as i128 || y < i32::MIN as i128 || y > i32::MAX as i128 {
        return false;
    }
    let mut i: usize = 0;
    while i < pts.len()
        invariant
            ps == wide_pairs(pts@),
            i <= pts@.len(),
            forall|j: int| 0 <= j < i ==> in_i32((#[trigger] ps[j]).0) && in_i32(ps[j].1),
        decreases pts@.len() - i,
    {
        let (a, b) = pts[i];
        if a < i32::MIN as i128 || a > i32::MAX as i128 || b < i32::MIN as i128 || b > i32::MAX as i128 {
            assert(!(in_i32(ps[i as int].0) && in_i32(ps[i as int].1)));
            return false;
        }
        i = i + 1;
    }
    let mut min_x: i128 = 0;
    let mut max_x: i128 = 0;
    let mut min_y: i128 = 0;
    let mut max_y: i128 = 0;
    let mut i: usize = 0;
    while i < pts.len()
        invariant
            ps == wide_pairs(pts@),
            i <= pts@.len(),
            forall|j: int| 0 <= j < pts@.len() ==> in_i32((#[trigger] ps[j]).0) && in_i32(ps[j].1),
            min_x == min_coord(ps.take(i as int), 0),
            max_x == max_coord(ps.take(i as int), 0),
            min_y == min_coord(ps.take(i as int), 1),
            max_y == max_coord(ps.take(i as int), 1),
            i32::MIN <= min_x <= 0 <= max_x <= i32::MAX,
            i32::MIN <= min_y <= 0 <= max_y <= i32::MAX,
        decreases pts@.len() - i,
    {
        let (a, b) = pts[i];
        assert(ps.take(i + 1).drop_last() =~= ps.take(i as int));
        assert(ps.take(i + 1).last() == ps[i as int]);
        assert(in_i32(ps[i as int].0));
        if a > max_x {
            max_x = a;
        }
        if a < min_x {
            min_x = a;
        }
        if b > max_y {
            max_y = b;
        }
        if b < min_y {
            min_y = b;
        }
        i = i + 1;
    }
    assert(ps.take(pts@.len() as int) =~= ps);
    max_x - min_x <= i32::MAX as i128 && max_y - min_y <= i32::MAX as i128
}

} // verus!
