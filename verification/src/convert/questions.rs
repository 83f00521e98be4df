//! What a conversion has to know of a tag from the engine's decoders.
use crate::convert::functions::{
    bytes_of_elements, curve_bytes, function_bytes_from_block, retarget_function_bytes,
    retargeted,
};
use crate::fields::{FieldValue, TagFieldData, TagFieldType};
use crate::tag::{
    ContentView, FieldView, StructView, TagField, TagStruct, elements_are_inside, field_is_inside,
    items_are_inside, struct_is_inside,
};
use vstd::prelude::*;

verus! {

/// One thing to ask.
#[derive(Debug, PartialEq, Eq)]
pub enum Question {
    /// Whether the bytes decode as a function definition.
    Curve(Vec<u8>),
    /// How the real number with these bits is written.
    Number(u32),
}

pub ghost enum QuestionView {
    Curve(Seq<u8>),
    Number(u32),
}

impl Question {
    pub open spec fn view(&self) -> QuestionView {
        match self {
            Question::Curve(bytes) => QuestionView::Curve(bytes@),
            Question::Number(bits) => QuestionView::Number(*bits),
        }
    }
}

/// The views of a list of questions.
pub open spec fn question_views(v: Seq<Question>) -> Seq<QuestionView> {
    Seq::new(v.len(), |i: int| v[i]@)
}

/// The question about a curve that is moved into its other container.
pub open spec fn curve_question(bytes: Option<Seq<u8>>, modern: bool) -> Seq<QuestionView> {
    match bytes {
        Some(bytes) => match retargeted(bytes, modern, !modern) {
            Some(moved) => seq![QuestionView::Curve(moved)],
            None => Seq::empty(),
        },
        None => Seq::empty(),
    }
}

/// The questions that a field raises, and those of what it holds.
pub open spec fn questions_in_field(f: FieldView) -> Seq<QuestionView>
    decreases f, 1nat, 0nat,
{
    match f.content {
        ContentView::Value(FieldValue::Reals { kind: TagFieldType::Real, bits }) => seq![
            QuestionView::Number(bits[0]),
        ],
        ContentView::Value(FieldValue::Bytes { kind: TagFieldType::Data, bytes }) => curve_question(
            Some(bytes),
            true,
        ),
        ContentView::Struct(s) => questions_in_fields(s.fields, s.fields.len()),
        ContentView::Block(b) => curve_question(
            bytes_of_elements(b.elements, b.elements.len()),
            false,
        ) + questions_in_elements(b.elements, b.elements.len()),
        ContentView::Array(a) => questions_in_elements(a, a.len()),
        _ => Seq::empty(),
    }
}

/// The questions of the first `n` fields of a struct.
pub open spec fn questions_in_fields(fields: Seq<FieldView>, n: nat) -> Seq<QuestionView>
    decreases fields, 0nat, n,
{
    if n == 0 || n > fields.len() {
        Seq::empty()
    } else {
        questions_in_fields(fields, (n - 1) as nat) + questions_in_field(fields[n - 1])
    }
}

/// The questions of the first `n` elements of a block or an array.
pub open spec fn questions_in_elements(elements: Seq<StructView>, n: nat) -> Seq<QuestionView>
    decreases elements, 0nat, n,
{
    if n == 0 || n > elements.len() {
        Seq::empty()
    } else {
        questions_in_elements(elements, (n - 1) as nat) + questions_in_fields(
            elements[n - 1].fields,
            elements[n - 1].fields.len(),
        )
    }
}

/// The questions of a struct.
pub open spec fn questions_in(s: StructView) -> Seq<QuestionView> {
    questions_in_fields(s.fields, s.fields.len())
}

fn push_question(questions: &mut Vec<Question>, question: Question)
    ensures
        question_views(final(questions)@) == question_views(old(questions)@) + seq![question@],
{
    let ghost before = questions@;
    questions.push(question);
    assert(question_views(questions@) =~= question_views(before) + seq![question@]);
}

fn ask_of_curve(questions: &mut Vec<Question>, bytes: &Vec<u8>, modern: bool)
    ensures
        question_views(final(questions)@) == question_views(old(questions)@) + curve_question(
            Some(bytes@),
            modern,
        ),
{
    match retarget_function_bytes(bytes, modern, !modern) {
        Some(moved) => push_question(questions, Question::Curve(moved)),
        None => {
            assert(question_views(questions@) + Seq::<QuestionView>::empty() =~= question_views(
                questions@,
            ));
        },
    }
}

fn ask_of_field(field: &TagField, questions: &mut Vec<Question>)
    ensures
        question_views(final(questions)@) == question_views(old(questions)@)
            + questions_in_field(field@),
    decreases field@, 1nat,
{
    let ghost before = question_views(questions@);
    assert(before + Seq::<QuestionView>::empty() =~= before);
    if let Some(value) = field.value() {
        match value {
            TagFieldData::Real(bits) => push_question(questions, Question::Number(*bits)),
            TagFieldData::Data(bytes) => ask_of_curve(questions, bytes, true),
            _ => {},
        }
        return;
    }
    if let Some(s) = field.as_struct() {
        proof {
            struct_is_inside(field@, s@);
        }
        ask_of_struct(s, questions);
        return;
    }
    if let Some(block) = field.as_block() {
        match function_bytes_from_block(block) {
            Some(bytes) => ask_of_curve(questions, &bytes, false),
            None => {},
        }
        let ghost first = question_views(questions@);
        assert(first + Seq::<QuestionView>::empty() =~= first);
        let n: usize = block.len();
        let mut i: usize = 0;
        while i < n
            invariant
                i <= n,
                n == block@.elements.len(),
                field@.content == ContentView::Block(block@),
                question_views(questions@) == first + questions_in_elements(
                    block@.elements,
                    i as nat,
                ),
            decreases n - i,
        {
            proof {
                elements_are_inside(field@, block@);
            }
            ask_of_struct(block.at(i), questions);
            i = i + 1;
            assert(question_views(questions@) =~= first + questions_in_elements(
                block@.elements,
                i as nat,
            ));
        }
        assert(question_views(questions@) =~= before + questions_in_field(field@));
        return;
    }
    if let Some(array) = field.as_array() {
        let n: usize = array.len();
        let mut i: usize = 0;
        while i < n
            invariant
                i <= n,
                n == array@.len(),
                field@.content == ContentView::Array(array@),
                question_views(questions@) == before + questions_in_elements(array@, i as nat),
            decreases n - i,
        {
            proof {
                items_are_inside(field@, array@);
            }
            ask_of_struct(array.at(i), questions);
            i = i + 1;
            assert(question_views(questions@) =~= before + questions_in_elements(
                array@,
                i as nat,
            ));
        }
    }
}

/// Appends the questions of a struct.
pub fn ask_of_struct(structure: &TagStruct, questions: &mut Vec<Question>)
    ensures
        question_views(final(questions)@) == question_views(old(questions)@) + questions_in(
            structure@,
        ),
    decreases structure@, 0nat,
{
    let ghost before = question_views(questions@);
    let n: usize = structure.len();
    let mut i: usize = 0;
    assert(before + questions_in_fields(structure@.fields, 0) =~= before);
    while i < n
        invariant
            i <= n,
            n == structure@.fields.len(),
            question_views(questions@) == before + questions_in_fields(
                structure@.fields,
                i as nat,
            ),
        decreases n - i,
    {
        proof {
            field_is_inside(structure@, i as int);
        }
        ask_of_field(structure.at(i), questions);
        i = i + 1;
        assert(question_views(questions@) =~= before + questions_in_fields(
            structure@.fields,
            i as nat,
        ));
    }
}

// ---------------------------------------------------------------------------
// Laws
// ---------------------------------------------------------------------------
/// Whatever target a field is converted into, the curve whose decoding decides is
/// among the questions of the field.
pub proof fn every_curve_is_asked_about(f: FieldView, t: FieldView)
    requires
        curve_bytes(f, t) matches Some(bytes) && bytes.len() > 0 && retargeted(
            bytes,
            f.field_type == TagFieldType::Data,
            t.field_type == TagFieldType::Data,
        ) is Some,
    ensures
        questions_in_field(f).contains(
            QuestionView::Curve(
                retargeted(
                    curve_bytes(f, t)->0,
                    f.field_type == TagFieldType::Data,
                    t.field_type == TagFieldType::Data,
                )->0,
            ),
        ),
{
    assert(questions_in_field(f)[0] == QuestionView::Curve(
        retargeted(
            curve_bytes(f, t)->0,
            f.field_type == TagFieldType::Data,
            t.field_type == TagFieldType::Data,
        )->0,
    ));
}

/// The number of a field that holds one is among its questions.
pub proof fn every_number_is_asked_about(f: FieldView)
    requires
        f.content matches ContentView::Value(FieldValue::Reals { kind: TagFieldType::Real, .. }),
    ensures
        f.content matches ContentView::Value(FieldValue::Reals { bits, .. })
            && questions_in_field(f).contains(QuestionView::Number(bits[0])),
{
    match f.content {
        ContentView::Value(FieldValue::Reals { bits, .. }) => {
            assert(questions_in_field(f)[0] == QuestionView::Number(bits[0]));
        },
        _ => {},
    }
}

proof fn lemma_fields_asked(fields: Seq<FieldView>, i: int, n: nat, q: QuestionView)
    requires
        0 <= i < n <= fields.len(),
        questions_in_field(fields[i]).contains(q),
    ensures
        questions_in_fields(fields, n).contains(q),
    decreases n,
{
    let front = questions_in_fields(fields, (n - 1) as nat);
    let back = questions_in_field(fields[n - 1]);
    if i == n - 1 {
        let k = back.index_of(q);
        assert((front + back)[front.len() + k] == q);
    } else {
        lemma_fields_asked(fields, i, (n - 1) as nat, q);
        let k = front.index_of(q);
        assert((front + back)[k] == q);
    }
}

proof fn lemma_elements_asked(elements: Seq<StructView>, i: int, n: nat, q: QuestionView)
    requires
        0 <= i < n <= elements.len(),
        questions_in(elements[i]).contains(q),
    ensures
        questions_in_elements(elements, n).contains(q),
    decreases n,
{
    let front = questions_in_elements(elements, (n - 1) as nat);
    let back = questions_in(elements[n - 1]);
    if i == n - 1 {
        let k = back.index_of(q);
        assert((front + back)[front.len() + k] == q);
    } else {
        lemma_elements_asked(elements, i, (n - 1) as nat, q);
        let k = front.index_of(q);
        assert((front + back)[k] == q);
    }
}

/// What is asked of a field is asked of the struct that it is in.
pub proof fn what_a_field_raises_its_struct_raises(s: StructView, i: int, q: QuestionView)
    requires
        0 <= i < s.fields.len(),
        questions_in_field(s.fields[i]).contains(q),
    ensures
        questions_in(s).contains(q),
{
    lemma_fields_asked(s.fields, i, s.fields.len(), q);
}

/// What is asked of a struct is asked of the field that holds it.
pub proof fn what_a_struct_raises_its_field_raises(f: FieldView, s: StructView, q: QuestionView)
    requires
        match f.content {
            ContentView::Struct(own) => own == s,
            ContentView::Block(b) => b.elements.contains(s),
            ContentView::Array(a) => a.contains(s),
            _ => false,
        },
        questions_in(s).contains(q),
    ensures
        questions_in_field(f).contains(q),
{
    match f.content {
        ContentView::Block(b) => {
            let i = b.elements.index_of(s);
            lemma_elements_asked(b.elements, i, b.elements.len(), q);
            let front = curve_question(
                bytes_of_elements(b.elements, b.elements.len()),
                false,
            );
            let back = questions_in_elements(b.elements, b.elements.len());
            let k = back.index_of(q);
            assert((front + back)[front.len() + k] == q);
        },
        ContentView::Array(a) => {
            let i = a.index_of(s);
            lemma_elements_asked(a, i, a.len(), q);
        },
        _ => {},
    }
}

}
