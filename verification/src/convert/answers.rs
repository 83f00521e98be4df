//! What the engine's own decoders say of the values that a conversion meets. They
//! stand outside the conversion, which reads their answers.
use crate::convert::groups::place_of_tag;
use crate::convert::turning::same_bytes;
use crate::fields::flag_names;
use crate::json::item_views;
use crate::text::{copy, decimal, decimal_text};
use vstd::prelude::*;

verus! {

/// The answers of the engine's decoders, for the tag that is converted.
#[derive(Debug, PartialEq, Eq, Default)]
pub struct EngineAnswers {
    /// The curves, as the target would hold them, that decode as function
    /// definitions.
    pub curves: Vec<Vec<u8>>,
    /// The texts of real numbers, by their bit patterns.
    pub numbers: Vec<(u32, String)>,
    /// The type of a function that is a constant.
    pub constant_function: u8,
    /// The flag of a function that can be evaluated on the graphics processor.
    pub gpu_flag: u8,
    /// What is said of a resource whose two definitions describe different shapes.
    pub resource_differs: String,
    /// What is said of a resource whose target field holds none.
    pub resource_missing: String,
}

/// The answers as contracts speak of them.
pub ghost struct EngineAnswersView {
    pub curves: Seq<Seq<u8>>,
    pub numbers: Seq<(u32, Seq<char>)>,
    pub constant_function: u8,
    pub gpu_flag: u8,
    pub resource_differs: Seq<char>,
    pub resource_missing: Seq<char>,
}

impl EngineAnswersView {
    /// Whether some bytes decode as a function definition.
    pub open spec fn decodes(self, bytes: Seq<u8>) -> bool {
        self.curves.contains(bytes)
    }

    /// The text of a real number; of one that none was given for, its bit pattern.
    pub open spec fn number_text(self, bits: u32) -> Seq<char> {
        match place_of_tag(self.numbers, bits, 0) {
            Some(p) => self.numbers[p as int].1,
            None => decimal(bits as nat),
        }
    }
}

impl EngineAnswers {
    pub open spec fn view(&self) -> EngineAnswersView {
        EngineAnswersView {
            curves: item_views(self.curves@),
            numbers: flag_names(self.numbers@),
            constant_function: self.constant_function,
            gpu_flag: self.gpu_flag,
            resource_differs: self.resource_differs@,
            resource_missing: self.resource_missing@,
        }
    }

    /// Whether some bytes decode as a function definition.
    pub fn curve_decodes(&self, bytes: &Vec<u8>) -> (r: bool)
        ensures
            r == self@.decodes(bytes@),
    {
        let ghost all = item_views(self.curves@);
        let mut i: usize = 0;
        while i < self.curves.len()
            invariant
                i <= self.curves.len(),
                all == item_views(self.curves@),
                forall|j: int| 0 <= j < i ==> all[j] != bytes@,
            decreases self.curves.len() - i,
        {
            assert(all[i as int] == self.curves@[i as int]@);
            if same_bytes(&self.curves[i], bytes) {
                return true;
            }
            i = i + 1;
        }
        false
    }

    /// The text of a real number.
    pub fn text_of_number(&self, bits: u32) -> (r: String)
        ensures
            r@ == self@.number_text(bits),
    {
        let ghost all = flag_names(self.numbers@);
        let mut i: usize = 0;
        while i < self.numbers.len()
            invariant
                i <= self.numbers.len(),
                all == flag_names(self.numbers@),
                place_of_tag(all, bits, 0) == place_of_tag(all, bits, i as nat),
            decreases self.numbers.len() - i,
        {
            assert(all[i as int] == (self.numbers@[i as int].0, self.numbers@[i as int].1@));
            if self.numbers[i].0 == bits {
                return copy(&self.numbers[i].1);
            }
            i = i + 1;
        }
        decimal_text(bits as u128)
    }
}

}
