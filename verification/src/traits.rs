//! Type erasure: values of several types behind one type, which can be cloned
//! and turned back into the type they came from, and into no other.

use vstd::prelude::*;

verus! {

/// A value whose type is known only at run time.
#[derive(Debug, PartialEq)]
pub enum ErasedValue {
    Bool(bool),
    Char(char),
    I32(i32),
    I64(i64),
    U32(u32),
    U64(u64),
    Usize(usize),
    Text(String),
}

/// What an erased value is: its type and, within the type, its value.
pub ghost enum ErasedModel {
    Bool(bool),
    Char(char),
    I32(i32),
    I64(i64),
    U32(u32),
    U64(u64),
    Usize(usize),
    Text(Seq<char>),
}

impl View for ErasedValue {
    type V = ErasedModel;

    open spec fn view(&self) -> ErasedModel {
        match *self {
            ErasedValue::Bool(v) => ErasedModel::Bool(v),
            ErasedValue::Char(v) => ErasedModel::Char(v),
            ErasedValue::I32(v) => ErasedModel::I32(v),
            ErasedValue::I64(v) => ErasedModel::I64(v),
            ErasedValue::U32(v) => ErasedModel::U32(v),
            ErasedValue::U64(v) => ErasedModel::U64(v),
            ErasedValue::Usize(v) => ErasedModel::Usize(v),
            ErasedValue::Text(v) => ErasedModel::Text(v@),
        }
    }
}

impl Clone for ErasedValue {
    /// A new value of the same type that holds the same.
    fn clone(&self) -> (out: Self)
        ensures
            out@ == self@,
    {
        match self {
            ErasedValue::Bool(v) => ErasedValue::Bool(*v),
            ErasedValue::Char(v) => ErasedValue::Char(*v),
            ErasedValue::I32(v) => ErasedValue::I32(*v),
            ErasedValue::I64(v) => ErasedValue::I64(*v),
            ErasedValue::U32(v) => ErasedValue::U32(*v),
            ErasedValue::U64(v) => ErasedValue::U64(*v),
            ErasedValue::Usize(v) => ErasedValue::Usize(*v),
            ErasedValue::Text(v) => ErasedValue::Text(v.clone()),
        }
    }
}

/// What a type needs to be stored erased: a value of it can be cloned into an
/// erased value, an erased value that came from the type can be turned back,
/// and values of it can be handed from thread to thread.
pub trait CloneableAny: Sized + Send + Sync {
    /// The erased value that stands for `self`.
    spec fn erased(&self) -> ErasedModel;

    /// Whether `model` is of this type.
    spec fn holds(model: ErasedModel) -> bool;

    /// What a value of this type is erased to is of this type.
    proof fn lemma_erased_holds(&self)
        ensures
            Self::holds(self.erased()),
    ;

    /// A clone of `self`, erased.
    fn clone_box(&self) -> (boxed: ErasedValue)
        ensures
            boxed@ == self.erased(),
    ;

    /// `self`, erased, without a copy.
    fn into_box(self) -> (boxed: ErasedValue)
        ensures
            boxed@ == self.erased(),
    ;

    /// The value behind `value`, cloned, where `value` is of this type; `None`
    /// where it is of another.
    fn downcast(value: &ErasedValue) -> (typed: Option<Self>)
        ensures
            typed is Some <==> Self::holds(value@),
            typed is Some ==> typed->0.erased() == value@,
    ;
}

impl CloneableAny for bool {
    open spec fn erased(&self) -> ErasedModel {
        ErasedModel::Bool(*self)
    }

    open spec fn holds(model: ErasedModel) -> bool {
        model is Bool
    }

    proof fn lemma_erased_holds(&self) {
    }

    fn clone_box(&self) -> (boxed: ErasedValue) {
        ErasedValue::Bool(*self)
    }

    fn into_box(self) -> (boxed: ErasedValue) {
        ErasedValue::Bool(self)
    }

    fn downcast(value: &ErasedValue) -> (typed: Option<Self>) {
        match value {
            ErasedValue::Bool(v) => Some(*v),
            _ => None,
        }
    }
}

impl CloneableAny for char {
    open spec fn erased(&self) -> ErasedModel {
        ErasedModel::Char(*self)
    }

    open spec fn holds(model: ErasedModel) -> bool {
        model is Char
    }

    proof fn lemma_erased_holds(&self) {
    }

    fn clone_box(&self) -> (boxed: ErasedValue) {
        ErasedValue::Char(*self)
    }

    fn into_box(self) -> (boxed: ErasedValue) {
        ErasedValue::Char(self)
    }

    fn downcast(value: &ErasedValue) -> (typed: Option<Self>) {
        match value {
            ErasedValue::Char(v) => Some(*v),
            _ => None,
        }
    }
}

impl CloneableAny for i32 {
    open spec fn erased(&self) -> ErasedModel {
        ErasedModel::I32(*self)
    }

    open spec fn holds(model: ErasedModel) -> bool {
        model is I32
    }

    proof fn lemma_erased_holds(&self) {
    }

    fn clone_box(&self) -> (boxed: ErasedValue) {
        ErasedValue::I32(*self)
    }

    fn into_box(self) -> (boxed: ErasedValue) {
        ErasedValue::I32(self)
    }

    fn downcast(value: &ErasedValue) -> (typed: Option<Self>) {
        match value {
            ErasedValue::I32(v) => Some(*v),
            _ => None,
        }
    }
}

impl CloneableAny for i64 {
    open spec fn erased(&self) -> ErasedModel {
        ErasedModel::I64(*self)
    }

    open spec fn holds(model: ErasedModel) -> bool {
        model is I64
    }

    proof fn lemma_erased_holds(&self) {
    }

    fn clone_box(&self) -> (boxed: ErasedValue) {
        ErasedValue::I64(*self)
    }

    fn into_box(self) -> (boxed: ErasedValue) {
        ErasedValue::I64(self)
    }

    fn downcast(value: &ErasedValue) -> (typed: Option<Self>) {
        match value {
            ErasedValue::I64(v) => Some(*v),
            _ => None,
        }
    }
}

impl CloneableAny for u32 {
    open spec fn erased(&self) -> ErasedModel {
        ErasedModel::U32(*self)
    }

    open spec fn holds(model: ErasedModel) -> bool {
        model is U32
    }

    proof fn lemma_erased_holds(&self) {
    }

    fn clone_box(&self) -> (boxed: ErasedValue) {
        ErasedValue::U32(*self)
    }

    fn into_box(self) -> (boxed: ErasedValue) {
        ErasedValue::U32(self)
    }

    fn downcast(value: &ErasedValue) -> (typed: Option<Self>) {
        match value {
            ErasedValue::U32(v) => Some(*v),
            _ => None,
        }
    }
}

impl CloneableAny for u64 {
    open spec fn erased(&self) -> ErasedModel {
        ErasedModel::U64(*self)
    }

    open spec fn holds(model: ErasedModel) -> bool {
        model is U64
    }

    proof fn lemma_erased_holds(&self) {
    }

    fn clone_box(&self) -> (boxed: ErasedValue) {
        ErasedValue::U64(*self)
    }

    fn into_box(self) -> (boxed: ErasedValue) {
        ErasedValue::U64(self)
    }

    fn downcast(value: &ErasedValue) -> (typed: Option<Self>) {
        match value {
            ErasedValue::U64(v) => Some(*v),
            _ => None,
        }
    }
}

impl CloneableAny for usize {
    open spec fn erased(&self) -> ErasedModel {
        ErasedModel::Usize(*self)
    }

    open spec fn holds(model: ErasedModel) -> bool {
        model is Usize
    }

    proof fn lemma_erased_holds(&self) {
    }

    fn clone_box(&self) -> (boxed: ErasedValue) {
        ErasedValue::Usize(*self)
    }

    fn into_box(self) -> (boxed: ErasedValue) {
        ErasedValue::Usize(self)
    }

    fn downcast(value: &ErasedValue) -> (typed: Option<Self>) {
        match value {
            ErasedValue::Usize(v) => Some(*v),
            _ => None,
        }
    }
}

impl CloneableAny for String {
    open spec fn erased(&self) -> ErasedModel {
        ErasedModel::Text(self@)
    }

    open spec fn holds(model: ErasedModel) -> bool {
        model is Text
    }

    proof fn lemma_erased_holds(&self) {
    }

    fn clone_box(&self) -> (boxed: ErasedValue) {
        ErasedValue::Text(self.clone())
    }

    fn into_box(self) -> (boxed: ErasedValue) {
        ErasedValue::Text(self)
    }

    fn downcast(value: &ErasedValue) -> (typed: Option<Self>) {
        match value {
            ErasedValue::Text(v) => Some(v.clone()),
            _ => None,
        }
    }
}

} // verus!
