use vstd::prelude::*;
use std::cmp::Ordering;
use crate::matching::compare_names;

verus! {

/// The recognized object classes; a class's index is its position here.
pub open spec fn class_names() -> Seq<Seq<char>> {
    seq![
        "pedestrian"@,
        "rider"@,
        "car"@,
        "truck"@,
        "bus"@,
        "train"@,
        "motorcycle"@,
        "bicycle"@,
        "traffic light"@,
        "traffic sign"@,
    ]
}

/// Number of recognized object classes.
pub const CLASS_COUNT: usize = 10;

/// Returns the name of class `i`.
pub fn class_name(i: usize) -> (r: &'static str)
    requires
        i < CLASS_COUNT,
    ensures
        r@ == class_names()[i as int],
{
    match i {
        0 => "pedestrian",
        1 => "rider",
        2 => "car",
        3 => "truck",
        4 => "bus",
        5 => "train",
        6 => "motorcycle",
        7 => "bicycle",
        8 => "traffic light",
        _ => "traffic sign",
    }
}

/// The first position at or after `from` in `names` that holds `s`.
pub open spec fn first_position(names: Seq<Seq<char>>, s: Seq<char>, from: nat) -> Option<usize>
    decreases names.len() - from,
{
    if from >= names.len() {
        None
    } else if names[from as int] == s {
        Some(from as usize)
    } else {
        first_position(names, s, from + 1)
    }
}

/// The class index of an already lower-cased category, if it is recognized.
pub open spec fn class_position(lowered: Seq<char>) -> Option<usize> {
    first_position(class_names(), lowered, 0)
}

/// What `str::to_lowercase` makes of a string.
pub uninterp spec fn lower_of(s: Seq<char>) -> Seq<char>;

/// Relies on `str::to_lowercase` (std): the result depends on the characters alone.
#[verifier::external_body]
fn lowercase(s: &str) -> (r: String)
    ensures
        r@ == lower_of(s@),
{
    s.to_lowercase()
}

/// Looks up an already lower-cased category among the recognized classes.
pub fn class_index_of_lowered(lowered: &str) -> (r: Option<usize>)
    ensures
        r == class_position(lowered@),
{
    let mut i: usize = 0;
    while i < CLASS_COUNT
        invariant
            i <= CLASS_COUNT,
            class_names().len() == CLASS_COUNT,
            first_position(class_names(), lowered@, i as nat) == class_position(lowered@),
        decreases CLASS_COUNT - i,
    {
        let name = class_name(i);
        match compare_names(name, lowered) {
            Ordering::Equal => {
                return Some(i);
            },
            _ => {},
        }
        i += 1;
    }
    None
}

/// The class index of a category, compared without regard to case.
pub fn class_index(category: &str) -> (r: Option<usize>)
    ensures
        r == class_position(lower_of(category@)),
{
    let lowered = lowercase(category);
    class_index_of_lowered(lowered.as_str())
}

/// One annotation of a label record, as far as the conversion reads it.
pub struct Annotation {
    /// The `category` field, when it is a string.
    pub category: Option<String>,
    /// Whether `box2d` is an object with numeric `x1`, `y1`, `x2` and `y2`.
    pub has_box: bool,
}

/// One label record: an image name and its annotations, if the record has any.
pub struct LabelRecord {
    pub name: String,
    /// The `labels` field; `None` when it is absent or not an array.
    pub labels: Option<Vec<Annotation>>,
}

/// What becomes of one annotation.
#[derive(Clone, Copy, Debug, PartialEq, Eq, Structural)]
pub enum ObjectOutcome {
    /// Written as a line with this class index.
    Kept(usize),
    /// Skipped: the category is not a string or the box is not usable.
    Malformed,
    /// Skipped: the category is not a recognized class.
    UnknownClass,
}

/// The outcome of an annotation.
pub open spec fn outcome_spec(a: Annotation) -> ObjectOutcome {
    match a.category {
        Some(c) if a.has_box => match class_position(lower_of(c@)) {
            Some(i) => ObjectOutcome::Kept(i),
            None => ObjectOutcome::UnknownClass,
        },
        _ => ObjectOutcome::Malformed,
    }
}

/// The outcomes of a record's annotations, in order; none when it has no labels.
pub open spec fn record_outcomes(record: LabelRecord) -> Seq<ObjectOutcome> {
    match record.labels {
        Some(v) => v@.map_values(|a: Annotation| outcome_spec(a)),
        None => Seq::empty(),
    }
}

/// Decides whether one annotation is written, and with which class index.
pub fn classify_object(a: &Annotation) -> (r: ObjectOutcome)
    ensures
        r == outcome_spec(*a),
{
    match &a.category {
        Some(c) => {
            if !a.has_box {
                return ObjectOutcome::Malformed;
            }
            match class_index(c.as_str()) {
                Some(i) => ObjectOutcome::Kept(i),
                None => ObjectOutcome::UnknownClass,
            }
        },
        None => ObjectOutcome::Malformed,
    }
}

/// The outcome of each annotation of `record`, in order. A record without
/// labels has none; a skipped annotation does not stop the others.
pub fn get_objects_in_image(record: &LabelRecord) -> (r: Vec<ObjectOutcome>)
    ensures
        r@ == record_outcomes(*record),
{
    let mut out: Vec<ObjectOutcome> = Vec::new();
    match &record.labels {
        None => {},
        Some(v) => {
            let mut i: usize = 0;
            while i < v.len()
                invariant
                    i <= v@.len(),
                    out@ == v@.take(i as int).map_values(|a: Annotation| outcome_spec(a)),
                decreases v@.len() - i,
            {
                let o = classify_object(&v[i]);
                out.push(o);
                i += 1;
                assert(out@ =~= v@.take(i as int).map_values(|a: Annotation| outcome_spec(a)));
            }
            assert(v@.take(i as int) =~= v@);
        },
    }
    out
}

/// The image names that the label records refer to, in record order.
pub fn get_label_names(records: &Vec<LabelRecord>) -> (r: Vec<String>)
    ensures
        r@.len() == records@.len(),
        forall|i: int| 0 <= i < records@.len() ==> #[trigger] r@[i]@ == records@[i].name@,
{
    let mut out: Vec<String> = Vec::new();
    let mut i: usize = 0;
    while i < records.len()
        invariant
            i <= records@.len(),
            out@.len() == i,
            forall|j: int| 0 <= j < i ==> #[trigger] out@[j]@ == records@[j].name@,
        decreases records@.len() - i,
    {
        out.push(records[i].name.clone());
        i += 1;
    }
    out
}

} // verus!
