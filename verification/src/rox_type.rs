use vstd::prelude::*;
use vstd::string::StringExecFns;

verus! {

/// Spec-level mirror of a runtime value: text as a character sequence, a
/// number as the bit pattern of an IEEE-754 binary64 value.
pub enum ValueModel {
    Str(Seq<char>),
    Num(u64),
    Bool(bool),
    Nil,
}

/// A runtime value of the language: a string, a number, a boolean, or nil.
///
/// A number is carried as the bit pattern of an IEEE-754 binary64 value.
/// The library never computes with the pattern itself: arithmetic on numbers
/// is supplied by the caller (see `NumOp` in the interpreter), while the
/// library moves patterns around and compares them bit for bit.
#[derive(Debug)]
pub enum RoxType {
    Str(String),
    Number(u64),
    Boolean(bool),
    Nil,
}

impl View for RoxType {
    type V = ValueModel;

    open spec fn view(&self) -> ValueModel {
        match self {
            RoxType::Str(s) => ValueModel::Str(s@),
            RoxType::Number(b) => ValueModel::Num(*b),
            RoxType::Boolean(b) => ValueModel::Bool(*b),
            RoxType::Nil => ValueModel::Nil,
        }
    }
}

impl Clone for RoxType {
    fn clone(&self) -> (r: Self)
        ensures
            r@ == self@,
    {
        match self {
            RoxType::Str(s) => RoxType::Str(s.clone()),
            RoxType::Number(b) => RoxType::Number(*b),
            RoxType::Boolean(b) => RoxType::Boolean(*b),
            RoxType::Nil => RoxType::Nil,
        }
    }
}

/// The display text of a value, given the display function `d` for numbers.
pub open spec fn display_model(v: ValueModel, d: spec_fn(u64) -> Seq<char>) -> Seq<char> {
    match v {
        ValueModel::Str(s) => s,
        ValueModel::Num(b) => d(b),
        ValueModel::Bool(b) => if b {
            "true"@
        } else {
            "false"@
        },
        ValueModel::Nil => "Nil"@,
    }
}

/// The caller-supplied number formatter answers nothing but what the
/// mathematical function `d` says: every text it can return agrees with `d`.
pub open spec fn disp_consistent<D: Fn(u64) -> String>(disp: D, d: spec_fn(u64) -> Seq<char>) -> bool {
    forall|b: u64, r: String| call_ensures(disp, (b,), r) ==> r@ == d(b)
}

/// The caller-supplied number formatter may be asked about any bit pattern.
pub open spec fn disp_callable<D: Fn(u64) -> String>(disp: D) -> bool {
    forall|b: u64| call_requires(disp, (b,))
}

impl RoxType {
    /// The display text of the value: the text of a string, the formatted
    /// number, `true`/`false`, or `Nil`. The caller supplies the number
    /// formatter, since the library does not compute with binary64 values.
    pub fn to_string<D: Fn(u64) -> String + Copy>(&self, disp: D) -> (r: String)
        requires
            disp_callable(disp),
        ensures
            forall|d: spec_fn(u64) -> Seq<char>|
                #[trigger] disp_consistent(disp, d) ==> r@ == display_model(self@, d),
    {
        match self {
            RoxType::Str(s) => s.clone(),
            RoxType::Number(b) => disp(*b),
            RoxType::Boolean(b) => {
                if *b {
                    String::from_str("true")
                } else {
                    String::from_str("false")
                }
            },
            RoxType::Nil => String::from_str("Nil"),
        }
    }
}

} // verus!
