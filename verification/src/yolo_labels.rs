//! Labels in the text format of the YOLO detectors: one label per line, the
//! class and then centre and size of a box as fractions of the image.
//!
//! ```text
//! <class> <x centre> <y centre> <width> <height> [<probability> [<object id>]]
//! ```
//!
//! The fields of a line are separated by single spaces or tabs. The numbers
//! of a label are decimals (see [`crate::decimal`]).

use crate::bbox::{AnnoationBoundingBox, BoxView};
use crate::decimal::{
    decimal_text, decimal_value, in_range, integer_text, integer_value, is_number_char,
    lemma_decimal_text_reads_back, lemma_integer_text_reads_back, lemma_number_text_chars,
    lemma_round_div_is_near, lemma_round_div_is_nearest, parse_decimal, parse_integer,
    push_decimal, push_integer, round_div, round_div_of, LIMIT, UNIT,
};
use crate::geometry::on_axis;
use crate::text::{
    chars_of, holds_neither, join, lemma_split_join, split, split_at_separators,
};
use vstd::prelude::*;
use vstd::string::StringExecFns;

verus! {

/// Why text is not a label, or a box cannot become one.
#[derive(Clone, Copy, Debug, PartialEq, Eq, Structural)]
pub enum FormatError {
    /// The line holds fewer than five fields.
    MissingField,
    /// A field does not write down a number that a label can hold.
    InvalidNumber,
    /// The image has no width or no height.
    EmptyImage,
}

/// YOLO label.
///
/// Centre and size are decimals: fractions of the image as they are read
/// from text, or lengths on the grid once they are unnormalised.
#[derive(Clone, Copy, Debug, PartialEq, Eq)]
pub struct Label {
    pub label_index: u32,
    pub x_centre: i128,
    pub y_centre: i128,
    pub width: i128,
    pub height: i128,
    pub probability: Option<i128>,
    pub object_id: Option<i64>,
}

/// The labels of one image.
#[derive(Debug, Clone, PartialEq, Eq)]
pub struct Labels {
    pub labels: Vec<Label>,
}

/// The labels as a slice, so that they can be walked through.
impl std::ops::Deref for Labels {
    type Target = [Label];

    fn deref(&self) -> (labels: &[Label])
        ensures
            labels@ == self.labels@,
    {
        self.labels.as_slice()
    }
}

/// The fields of a line.
pub open spec fn fields_of(line: Seq<char>) -> Seq<Seq<char>> {
    split(line, ' ', '\t')
}

/// Whether the field `t` writes down a class.
pub open spec fn is_class(t: Seq<char>) -> bool {
    integer_value(t) matches Some(v) && 0 <= v <= u32::MAX
}

/// Whether the field `t` writes down an object id.
pub open spec fn is_object_id(t: Seq<char>) -> bool {
    integer_value(t) matches Some(v) && i64::MIN < v <= i64::MAX
}

/// Whether every field of `f` that a label is read from writes down a
/// number of its kind. Fields behind the seventh are not looked at.
pub open spec fn fields_are_numbers(f: Seq<Seq<char>>) -> bool {
    &&& is_class(f[0])
    &&& decimal_value(f[1]) is Some
    &&& decimal_value(f[2]) is Some
    &&& decimal_value(f[3]) is Some
    &&& decimal_value(f[4]) is Some
    &&& f.len() > 5 ==> decimal_value(f[5]) is Some
    &&& f.len() > 6 ==> is_object_id(f[6])
}

/// The label that a line writes down, or the reason why it writes none.
pub open spec fn label_of(line: Seq<char>) -> Result<Label, FormatError> {
    let f = fields_of(line);
    if f.len() < 5 {
        Err(FormatError::MissingField)
    } else if !fields_are_numbers(f) {
        Err(FormatError::InvalidNumber)
    } else {
        Ok(
            Label {
                label_index: integer_value(f[0]).unwrap() as u32,
                x_centre: decimal_value(f[1]).unwrap() as i128,
                y_centre: decimal_value(f[2]).unwrap() as i128,
                width: decimal_value(f[3]).unwrap() as i128,
                height: decimal_value(f[4]).unwrap() as i128,
                probability: if f.len() > 5 {
                    Some(decimal_value(f[5]).unwrap() as i128)
                } else {
                    None
                },
                object_id: if f.len() > 6 {
                    Some(integer_value(f[6]).unwrap() as i64)
                } else {
                    None
                },
            },
        )
    }
}

/// The labels that the lines write down, in order; an empty line writes
/// none. The first line that is not a label makes the whole fail, and its
/// reason is the reason of the whole.
pub open spec fn labels_of_lines(lines: Seq<Seq<char>>) -> Result<Seq<Label>, FormatError>
    decreases lines.len(),
{
    if lines.len() == 0 {
        Ok(Seq::<Label>::empty())
    } else {
        match labels_of_lines(lines.drop_last()) {
            Err(e) => Err(e),
            Ok(labels) => if lines.last().len() == 0 {
                Ok(labels)
            } else {
                match label_of(lines.last()) {
                    Ok(label) => Ok(labels.push(label)),
                    Err(e) => Err(e),
                }
            },
        }
    }
}

/// The labels that a text writes down, one on each line that is not empty.
pub open spec fn labels_of(text: Seq<char>) -> Result<Seq<Label>, FormatError> {
    labels_of_lines(split(text, '\n', '\n'))
}

/// The fields that write down `label`. The object id can only stand behind
/// a probability: without one it is left out.
pub open spec fn label_fields(label: Label) -> Seq<Seq<char>> {
    let required = seq![
        integer_text(label.label_index as int),
        decimal_text(label.x_centre as int),
        decimal_text(label.y_centre as int),
        decimal_text(label.width as int),
        decimal_text(label.height as int),
    ];
    match label.probability {
        Some(p) => match label.object_id {
            Some(id) => required.push(decimal_text(p as int)).push(integer_text(id as int)),
            None => required.push(decimal_text(p as int)),
        },
        None => required,
    }
}

/// The line that writes down `label`: its fields with one space between
/// each two of them.
pub open spec fn label_text(label: Label) -> Seq<char> {
    join(label_fields(label), seq![' '])
}

/// A failure among the first lines is the failure of them all.
proof fn lemma_first_failure_stays(lines: Seq<Seq<char>>, n: int)
    requires
        0 <= n <= lines.len(),
        labels_of_lines(lines.take(n)) is Err,
    ensures
        labels_of_lines(lines) == labels_of_lines(lines.take(n)),
    decreases lines.len() - n,
{
    if n == lines.len() {
        assert(lines.take(n) =~= lines);
    } else {
        assert(lines.take(n + 1).drop_last() =~= lines.take(n));
        lemma_first_failure_stays(lines, n + 1);
    }
}

impl Label {
    /// Reads one line: see [`label_of`].
    pub fn parse_line(line: &str) -> (r: Result<Label, FormatError>)
        ensures
            r == label_of(line@),
    {
        let chars = chars_of(line);
        Label::from_chars(&chars)
    }

    /// Reads one line that is at hand as characters: see [`label_of`].
    pub fn from_chars(line: &Vec<char>) -> (r: Result<Label, FormatError>)
        ensures
            r == label_of(line@),
    {
        let fields = split_at_separators(line, ' ', '\t');
        let ghost f = fields_of(line@);
        assert(forall|i: int| 0 <= i < fields.len() ==> (#[trigger] fields[i])@ == f[i]);
        if fields.len() < 5 {
            return Err(FormatError::MissingField);
        }
        let class = match parse_integer(&fields[0]) {
            Some(v) => if 0 <= v && v <= u32::MAX as i64 {
                v as u32
            } else {
                return Err(FormatError::InvalidNumber);
            },
            None => {
                return Err(FormatError::InvalidNumber);
            },
        };
        let x_centre = match parse_decimal(&fields[1]) {
            Some(v) => v,
            None => {
                return Err(FormatError::InvalidNumber);
            },
        };
        let y_centre = match parse_decimal(&fields[2]) {
            Some(v) => v,
            None => {
                return Err(FormatError::InvalidNumber);
            },
        };
        let width = match parse_decimal(&fields[3]) {
            Some(v) => v,
            None => {
                return Err(FormatError::InvalidNumber);
            },
        };
        let height = match parse_decimal(&fields[4]) {
            Some(v) => v,
            None => {
                return Err(FormatError::InvalidNumber);
            },
        };
        let probability = if fields.len() > 5 {
            match parse_decimal(&fields[5]) {
                Some(v) => Some(v),
                None => {
                    return Err(FormatError::InvalidNumber);
                },
            }
        } else {
            None
        };
        let object_id = if fields.len() > 6 {
            match parse_integer(&fields[6]) {
                Some(v) => Some(v),
                None => {
                    return Err(FormatError::InvalidNumber);
                },
            }
        } else {
            None
        };
        Ok(Label { label_index: class, x_centre, y_centre, width, height, probability, object_id })
    }

    /// Writes the label as one line, without a line end: see
    /// [`label_text`].
    pub fn to_line(&self) -> (line: String)
        ensures
            line@ == label_text(*self),
    {
        let ghost fields = label_fields(*self);
        let mut line = String::new();
        push_integer(&mut line, self.label_index as i128);
        assert(line@ =~= join(fields.take(1), seq![' ']));
        push_field(&mut line, self.x_centre, Ghost(fields), Ghost(1));
        push_field(&mut line, self.y_centre, Ghost(fields), Ghost(2));
        push_field(&mut line, self.width, Ghost(fields), Ghost(3));
        push_field(&mut line, self.height, Ghost(fields), Ghost(4));
        if let Some(p) = self.probability {
            push_field(&mut line, p, Ghost(fields), Ghost(5));
            if let Some(id) = self.object_id {
                proof {
                    reveal_strlit(" ");
                }
                let ghost before = line@;
                line.append(" ");
                push_integer(&mut line, id as i128);
                assert(fields.take(7).drop_last() =~= fields.take(6));
                assert(line@ =~= before + seq![' '] + fields[6]);
            }
        }
        assert(fields.take(fields.len() as int) =~= fields);
        line
    }
}

/// Writes a space and the decimal `v`, which is field `k` of a line, behind
/// the fields before it.
fn push_field(line: &mut String, v: i128, Ghost(fields): Ghost<Seq<Seq<char>>>, Ghost(k): Ghost<int>)
    requires
        1 <= k < fields.len(),
        fields[k] == decimal_text(v as int),
        old(line)@ == join(fields.take(k), seq![' ']),
    ensures
        final(line)@ == join(fields.take(k + 1), seq![' ']),
{
    proof {
        reveal_strlit(" ");
    }
    line.append(" ");
    push_decimal(line, v);
    assert(fields.take(k + 1).drop_last() =~= fields.take(k));
    assert(line@ =~= old(line)@ + seq![' '] + fields[k]);
}

impl Labels {
    /// Reads a text of labels: see [`labels_of`]. Nothing is kept of a text
    /// that holds a line which is no label.
    pub fn parse_document(text: &str) -> (r: Result<Labels, FormatError>)
        ensures
            match r {
                Ok(labels) => labels_of(text@) == Ok::<Seq<Label>, FormatError>(labels.labels@),
                Err(e) => labels_of(text@) == Err::<Seq<Label>, FormatError>(e),
            },
    {
        let chars = chars_of(text);
        let lines = split_at_separators(&chars, '\n', '\n');
        let ghost all = split(text@, '\n', '\n');
        assert(forall|i: int| 0 <= i < lines.len() ==> (#[trigger] lines[i])@ == all[i]);
        let mut labels: Vec<Label> = Vec::new();
        let mut i: usize = 0;
        assert(all.take(0) =~= Seq::<Seq<char>>::empty());
        while i < lines.len()
            invariant
                i <= lines.len(),
                all == split(text@, '\n', '\n'),
                all.len() == lines.len(),
                forall|j: int| 0 <= j < lines.len() ==> (#[trigger] lines[j])@ == all[j],
                labels_of_lines(all.take(i as int)) == Ok::<Seq<Label>, FormatError>(labels@),
            decreases lines.len() - i,
        {
            proof {
                assert(all.take(i + 1).drop_last() =~= all.take(i as int));
            }
            if lines[i].len() > 0 {
                match Label::from_chars(&lines[i]) {
                    Ok(label) => {
                        labels.push(label);
                    },
                    Err(e) => {
                        proof {
                            let tried = all.take(i + 1);
                            assert(tried.last() == lines[i as int]@);
                            assert(labels_of_lines(tried) == Err::<Seq<Label>, FormatError>(e));
                            lemma_first_failure_stays(all, i + 1);
                        }
                        return Err(e);
                    },
                }
            }
            i += 1;
        }
        assert(all.take(i as int) =~= all);
        Ok(Labels { labels })
    }
}


/// The fraction of `extent` that the length `v` is, as a decimal.
pub open spec fn normalised(v: int, extent: int) -> int {
    round_div(v * UNIT, extent)
}

/// The whole number of grid units that is nearest to the decimal `v`.
pub open spec fn to_grid(v: int) -> int {
    round_div(v, UNIT as int)
}

/// The label of a box on an image of the given width and height: the class,
/// and centre and size as fractions of the image. A box without geometry
/// gives zeros.
pub open spec fn normalised_label(b: BoxView, image_width: u32, image_height: u32) -> Label {
    Label {
        label_index: b.class_id,
        x_centre: normalised(b.x_center, image_width as int) as i128,
        y_centre: normalised(b.y_center, image_height as int) as i128,
        width: normalised(b.width, image_width as int) as i128,
        height: normalised(b.height, image_height as int) as i128,
        probability: None,
        object_id: None,
    }
}

/// The box that a label in grid units describes, if there is one: centre and
/// size are rounded to whole units, and the box has to lie on the grid and
/// must not have a negative size.
pub open spec fn box_of(label: Label) -> Option<BoxView> {
    let b = BoxView::centered(
        to_grid(label.x_centre as int),
        to_grid(label.y_centre as int),
        to_grid(label.width as int),
        to_grid(label.height as int),
        label.label_index,
    );
    if on_axis(b.x_center) && on_axis(b.y_center) && b.wf() {
        Some(b)
    } else {
        None
    }
}

/// What can be turned from fractions of an image into lengths on the grid.
pub trait Unnormaliser: Sized {
    /// Whether centre and size are decimals in range, so that their
    /// products with the extent of an image can be held.
    spec fn can_unnormalise(&self) -> bool;

    /// Whether `scaled` is `self` with every horizontal number multiplied
    /// by the width and every vertical number by the height of
    /// `dimensions`, and everything else as it was.
    spec fn is_unnormalised(&self, dimensions: (u32, u32), scaled: &Self) -> bool;

    fn unnormalise(&self, dimensions: (u32, u32)) -> (scaled: Self)
        requires
            self.can_unnormalise(),
        ensures
            self.is_unnormalised(dimensions, &scaled),
    ;
}

impl Label {
    /// The label with centre and size multiplied by the width and the
    /// height of `dimensions`.
    pub open spec fn scaled(self, dimensions: (u32, u32)) -> Label {
        Label {
            x_centre: (self.x_centre * dimensions.0) as i128,
            y_centre: (self.y_centre * dimensions.1) as i128,
            width: (self.width * dimensions.0) as i128,
            height: (self.height * dimensions.1) as i128,
            ..self
        }
    }

    /// Whether centre and size are in range.
    pub open spec fn is_in_range(self) -> bool {
        &&& in_range(self.x_centre as int)
        &&& in_range(self.y_centre as int)
        &&& in_range(self.width as int)
        &&& in_range(self.height as int)
    }
}

/// The product of a decimal in range and the extent of an image.
fn times(v: i128, extent: u32) -> (r: i128)
    requires
        in_range(v as int),
    ensures
        r == v * extent,
{
    assert(-LIMIT * 0x1_0000_0000 <= v * extent <= LIMIT * 0x1_0000_0000) by (nonlinear_arith)
        requires
            -LIMIT <= v <= LIMIT,
            0 <= extent <= 0x1_0000_0000,
    ;
    v * (extent as i128)
}

impl Unnormaliser for Label {
    open spec fn can_unnormalise(&self) -> bool {
        self.is_in_range()
    }

    open spec fn is_unnormalised(&self, dimensions: (u32, u32), scaled: &Self) -> bool {
        &&& *scaled == self.scaled(dimensions)
        &&& scaled.x_centre == self.x_centre * dimensions.0
        &&& scaled.y_centre == self.y_centre * dimensions.1
        &&& scaled.width == self.width * dimensions.0
        &&& scaled.height == self.height * dimensions.1
    }

    fn unnormalise(&self, dimensions: (u32, u32)) -> (scaled: Self) {
        Label {
            label_index: self.label_index,
            x_centre: times(self.x_centre, dimensions.0),
            y_centre: times(self.y_centre, dimensions.1),
            width: times(self.width, dimensions.0),
            height: times(self.height, dimensions.1),
            probability: self.probability,
            object_id: self.object_id,
        }
    }
}

impl Unnormaliser for Labels {
    open spec fn can_unnormalise(&self) -> bool {
        forall|i: int| 0 <= i < self.labels@.len() ==> (#[trigger] self.labels@[i]).is_in_range()
    }

    open spec fn is_unnormalised(&self, dimensions: (u32, u32), scaled: &Self) -> bool {
        &&& scaled.labels@.len() == self.labels@.len()
        &&& forall|i: int|
            0 <= i < self.labels@.len() ==> (#[trigger] self.labels@[i]).is_unnormalised(
                dimensions,
                &scaled.labels@[i],
            )
    }

    fn unnormalise(&self, dimensions: (u32, u32)) -> (scaled: Self) {
        let mut labels: Vec<Label> = Vec::new();
        let mut i: usize = 0;
        while i < self.labels.len()
            invariant
                i <= self.labels.len(),
                self.can_unnormalise(),
                labels@.len() == i,
                forall|j: int|
                    0 <= j < i ==> (#[trigger] self.labels@[j]).is_unnormalised(dimensions, &labels@[j]),
            decreases self.labels.len() - i,
        {
            let label = self.labels[i].unnormalise(dimensions);
            labels.push(label);
            i += 1;
        }
        Labels { labels }
    }
}

impl Label {
    /// The box that this label describes, once it is in grid units: see
    /// [`box_of`].
    pub fn to_bounding_box(&self) -> (r: Option<AnnoationBoundingBox>)
        ensures
            match r {
                Some(b) => box_of(*self) == Some(b@),
                None => box_of(*self) is None,
            },
    {
        let x = round_div_of(self.x_centre, UNIT as u64);
        let y = round_div_of(self.y_centre, UNIT as u64);
        let w = round_div_of(self.width, UNIT as u64);
        let h = round_div_of(self.height, UNIT as u64);
        if x < i32::MIN as i128 || x > i32::MAX as i128 || y < i32::MIN as i128 || y > i32::MAX as i128
            || w < 0 || w > u32::MAX as i128 || h < 0 || h > u32::MAX as i128 {
            return None;
        }
        if !AnnoationBoundingBox::fits(x as i32, y as i32, w as u32, h as u32) {
            return None;
        }
        Some(AnnoationBoundingBox::from_center(x as i32, y as i32, w as u32, h as u32, self.label_index))
    }
}

impl AnnoationBoundingBox {
    /// The label of the box on an image of the given width and height: see
    /// [`normalised_label`]. An image without width or without height has
    /// no labels.
    pub fn to_normalized_label(self, image_width: u32, image_height: u32) -> (r: Result<
        Label,
        FormatError,
    >)
        ensures
            r == if image_width == 0 || image_height == 0 {
                Err::<Label, FormatError>(FormatError::EmptyImage)
            } else {
                Ok::<Label, FormatError>(normalised_label(self@, image_width, image_height))
            },
            r matches Ok(label) ==> label.is_in_range(),
            r matches Ok(label) ==> (self@.lies_within(image_width as int, image_height as int) ==> {
                &&& 0 <= label.x_centre <= UNIT
                &&& 0 <= label.y_centre <= UNIT
                &&& 0 <= label.width <= UNIT
                &&& 0 <= label.height <= UNIT
            }),
    {
        if image_width == 0 || image_height == 0 {
            return Err(FormatError::EmptyImage);
        }
        proof {
            use_type_invariant(&self);
            if self@.lies_within(image_width as int, image_height as int) {
                lemma_label_within_image(self@, image_width, image_height);
            }
            lemma_normalised_is_in_range(self@.x_center, image_width as int);
            lemma_normalised_is_in_range(self@.y_center, image_height as int);
            lemma_normalised_is_in_range(self@.width, image_width as int);
            lemma_normalised_is_in_range(self@.height, image_height as int);
        }
        let center = self.center();
        Ok(
            Label {
                label_index: self.class_id(),
                x_centre: round_div_of(center.x as i128 * UNIT, image_width as u64),
                y_centre: round_div_of(center.y as i128 * UNIT, image_height as u64),
                width: round_div_of(self.width() as i128 * UNIT, image_width as u64),
                height: round_div_of(self.height() as i128 * UNIT, image_height as u64),
                probability: None,
                object_id: None,
            },
        )
    }

    /// The line that writes down the box as a label on an image of the given
    /// width and height.
    pub fn to_yolo_label_str(self, image_width: u32, image_height: u32) -> (r: Result<
        String,
        FormatError,
    >)
        ensures
            match r {
                Ok(line) => image_width != 0 && image_height != 0 && line@ == label_text(
                    normalised_label(self@, image_width, image_height),
                ),
                Err(e) => e == FormatError::EmptyImage && (image_width == 0 || image_height == 0),
            },
    {
        match self.to_normalized_label(image_width, image_height) {
            Ok(label) => Ok(label.to_line()),
            Err(e) => Err(e),
        }
    }
}

/// A length on the grid is a fraction in range of every image.
pub proof fn lemma_normalised_is_in_range(v: int, extent: int)
    requires
        -0x1_0000_0000 < v < 0x1_0000_0000,
        extent > 0,
    ensures
        in_range(normalised(v, extent)),
{
    let a = v * UNIT;
    let q = round_div(a, extent);
    lemma_round_div_is_near(a, extent);
    // |q| * extent <= |a| + extent / 2, and |a| <= (2^32 - 1) * UNIT
    assert(-0xffff_ffff * UNIT <= a <= 0xffff_ffff * UNIT) by (nonlinear_arith)
        requires
            a == v * UNIT,
            -0xffff_ffff <= v <= 0xffff_ffff,
            UNIT > 0,
    ;
    assert(-LIMIT < q < LIMIT) by (nonlinear_arith)
        requires
            -extent <= 2 * (q * extent - a) <= extent,
            -0xffff_ffff * UNIT <= a <= 0xffff_ffff * UNIT,
            extent >= 1,
            LIMIT == 0x1_0000_0000 * UNIT,
            UNIT == 10_000_000_000,
    ;
}


/// The text of a number holds no space and no tab.
proof fn lemma_number_is_one_field(v: int)
    ensures
        holds_neither(decimal_text(v), ' ', '\t'),
        holds_neither(integer_text(v), ' ', '\t'),
{
    lemma_number_text_chars(v);
    assert forall|i: int| 0 <= i < decimal_text(v).len() implies #[trigger] decimal_text(v)[i] != ' '
        && decimal_text(v)[i] != '\t' by {
        assert(is_number_char(decimal_text(v)[i]));
    }
    assert forall|i: int| 0 <= i < integer_text(v).len() implies #[trigger] integer_text(v)[i] != ' '
        && integer_text(v)[i] != '\t' by {
        assert(is_number_char(integer_text(v)[i]));
    }
}

/// Whether the line of `label` holds all of it: the numbers are in range,
/// and there is no object id without a probability.
pub open spec fn can_be_written(label: Label) -> bool {
    &&& label.is_in_range()
    &&& label.probability matches Some(p) ==> in_range(p as int)
    &&& label.object_id matches Some(id) ==> label.probability is Some && id > i64::MIN
}

/// The fields of the line of a label are the fields that write down the
/// label.
proof fn lemma_fields_of_line(label: Label)
    ensures
        fields_of(label_text(label)) == label_fields(label),
{
    let fields = label_fields(label);
    assert forall|i: int| 0 <= i < fields.len() implies holds_neither(#[trigger] fields[i], ' ', '\t') by {
        lemma_number_is_one_field(label.label_index as int);
        lemma_number_is_one_field(label.x_centre as int);
        lemma_number_is_one_field(label.y_centre as int);
        lemma_number_is_one_field(label.width as int);
        lemma_number_is_one_field(label.height as int);
        if let Some(p) = label.probability {
            lemma_number_is_one_field(p as int);
        }
        if let Some(id) = label.object_id {
            lemma_number_is_one_field(id as int);
        }
    }
    lemma_split_join(fields, ' ', ' ', '\t');
}

/// A label that is written as a line and read again is the same label.
pub proof fn lemma_line_reads_back(label: Label)
    requires
        can_be_written(label),
    ensures
        label_of(label_text(label)) == Ok::<Label, FormatError>(label),
{
    lemma_fields_of_line(label);
    lemma_integer_text_reads_back(label.label_index as int);
    lemma_decimal_text_reads_back(label.x_centre as int);
    lemma_decimal_text_reads_back(label.y_centre as int);
    lemma_decimal_text_reads_back(label.width as int);
    lemma_decimal_text_reads_back(label.height as int);
    if let Some(p) = label.probability {
        lemma_decimal_text_reads_back(p as int);
    }
    if let Some(id) = label.object_id {
        lemma_integer_text_reads_back(id as int);
    }
}

/// A length that is turned into a fraction of an image and back is the same
/// length, on every image whose extent is less than one unit of the
/// decimals, which is every image that has an extent at all.
pub proof fn lemma_length_round_trip(v: int, extent: u32)
    requires
        extent > 0,
    ensures
        to_grid(normalised(v, extent as int) * extent) == v,
{
    let n = normalised(v, extent as int);
    lemma_round_div_is_near(v * UNIT, extent as int);
    assert(n * extent - v * UNIT == -(v * UNIT - n * extent));
    lemma_round_div_is_nearest(n * extent, UNIT as int, v);
}

/// A box that is written as a line for an image, read again and
/// unnormalised for the same image is the same box: class, centre and size
/// come back exactly. This holds for every placed box and every image that
/// has a width and a height.
pub proof fn lemma_box_round_trip(b: BoxView, image_width: u32, image_height: u32)
    requires
        b.wf(),
        b.placed,
        image_width > 0,
        image_height > 0,
    ensures
        ({
            let label = normalised_label(b, image_width, image_height);
            &&& can_be_written(label)
            &&& label_of(label_text(label)) == Ok::<Label, FormatError>(label)
            &&& label.can_unnormalise()
            &&& box_of(label.scaled((image_width, image_height))) == Some(b)
        }),
{
    let label = normalised_label(b, image_width, image_height);
    lemma_normalised_is_in_range(b.x_center, image_width as int);
    lemma_normalised_is_in_range(b.y_center, image_height as int);
    lemma_normalised_is_in_range(b.width, image_width as int);
    lemma_normalised_is_in_range(b.height, image_height as int);
    lemma_line_reads_back(label);
    lemma_length_round_trip(b.x_center, image_width);
    lemma_length_round_trip(b.y_center, image_height);
    lemma_length_round_trip(b.width, image_width);
    lemma_length_round_trip(b.height, image_height);
    let scaled = label.scaled((image_width, image_height));
    lemma_scaled_fits(label.x_centre as int, image_width);
    lemma_scaled_fits(label.y_centre as int, image_height);
    lemma_scaled_fits(label.width as int, image_width);
    lemma_scaled_fits(label.height as int, image_height);
}

/// The product of a decimal in range and the extent of an image can be
/// held.
proof fn lemma_scaled_fits(v: int, extent: u32)
    requires
        in_range(v),
    ensures
        i128::MIN <= v * extent <= i128::MAX,
{
    assert(-LIMIT * 0x1_0000_0000 <= v * extent <= LIMIT * 0x1_0000_0000) by (nonlinear_arith)
        requires
            -LIMIT <= v <= LIMIT,
            0 <= extent <= 0x1_0000_0000,
    ;
}

/// The label of a box that lies within the image holds fractions between
/// zero and one.
pub proof fn lemma_label_within_image(b: BoxView, image_width: u32, image_height: u32)
    requires
        b.wf(),
        image_width > 0,
        image_height > 0,
        b.lies_within(image_width as int, image_height as int),
    ensures
        ({
            let label = normalised_label(b, image_width, image_height);
            &&& 0 <= label.x_centre <= UNIT
            &&& 0 <= label.y_centre <= UNIT
            &&& 0 <= label.width <= UNIT
            &&& 0 <= label.height <= UNIT
        }),
{
    lemma_fraction_of_whole(b.x_center, image_width as int);
    lemma_fraction_of_whole(b.y_center, image_height as int);
    lemma_fraction_of_whole(b.width, image_width as int);
    lemma_fraction_of_whole(b.height, image_height as int);
    lemma_normalised_is_in_range(b.x_center, image_width as int);
    lemma_normalised_is_in_range(b.y_center, image_height as int);
    lemma_normalised_is_in_range(b.width, image_width as int);
    lemma_normalised_is_in_range(b.height, image_height as int);
}

/// A part of a whole is a fraction between zero and one.
proof fn lemma_fraction_of_whole(v: int, extent: int)
    requires
        0 <= v <= extent,
        extent > 0,
    ensures
        0 <= normalised(v, extent) <= UNIT,
{
    let a = v * UNIT;
    let q = normalised(v, extent);
    lemma_round_div_is_near(a, extent);
    assert(0 <= a <= extent * UNIT) by (nonlinear_arith)
        requires
            a == v * UNIT,
            0 <= v <= extent,
            UNIT > 0,
    ;
    assert(q <= UNIT) by (nonlinear_arith)
        requires
            2 * (q * extent - a) <= extent,
            a <= extent * UNIT,
            extent > 0,
    ;
}

} // verus!
