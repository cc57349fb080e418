//! The dynamic type and value model: a closed set of interface types and
//! the runtime values that inhabit them.
use vstd::prelude::*;

verus! {

/// An interface type, as resolved from a schema.
#[derive(Debug, PartialEq, Eq)]
pub enum Type {
    Bool,
    U8,
    U16,
    U32,
    U64,
    S8,
    S16,
    S32,
    S64,
    Char,
    Str,
    List(Box<Type>),
    Record(Vec<Type>),
    Tuple(Vec<Type>),
    /// One entry per case, with the payload type of the case if it has one.
    Variant(Vec<Option<Type>>),
    /// The number of cases.
    Enum(u32),
    Opt(Box<Type>),
    /// The `ok` and the `err` payload types.
    Res(Option<Box<Type>>, Option<Box<Type>>),
    /// The number of flags, at most 32.
    Flags(u32),
    Own,
    Borrow,
    Stream(Box<Type>),
    Future(Box<Type>),
}

/// A runtime value of some [`Type`].
#[derive(Debug, PartialEq, Eq)]
pub enum Value {
    Bool(bool),
    U8(u8),
    U16(u16),
    U32(u32),
    U64(u64),
    S8(i8),
    S16(i16),
    S32(i32),
    S64(i64),
    Char(char),
    Str(String),
    List(Vec<Value>),
    /// The fields of a record or the members of a tuple, in order.
    Record(Vec<Value>),
    /// The active case of a variant, enum, option (`0` none, `1` some) or
    /// result (`0` ok, `1` err), and its payload.
    Variant(u32, Option<Box<Value>>),
    /// Bit `i` is set when flag `i` is.
    Flags(u32),
    Own(u64),
    Borrow(u64),
    /// A stream; its items travel on a subchannel of their own.
    Stream,
    /// A future; its value travels on a subchannel of its own.
    Future,
}

/// The mathematical form of a [`Value`]: strings as characters, lists as
/// sequences.
pub ghost enum Val {
    Bool(bool),
    U8(u8),
    U16(u16),
    U32(u32),
    U64(u64),
    S8(i8),
    S16(i16),
    S32(i32),
    S64(i64),
    Char(char),
    Str(Seq<char>),
    List(Seq<Val>),
    Record(Seq<Val>),
    Variant(u32, Option<Box<Val>>),
    Flags(u32),
    Own(u64),
    Borrow(u64),
    Stream,
    Future,
}

impl Value {
    pub open spec fn view(&self) -> Val
        decreases self,
    {
        match self {
            Value::Bool(x) => Val::Bool(*x),
            Value::U8(x) => Val::U8(*x),
            Value::U16(x) => Val::U16(*x),
            Value::U32(x) => Val::U32(*x),
            Value::U64(x) => Val::U64(*x),
            Value::S8(x) => Val::S8(*x),
            Value::S16(x) => Val::S16(*x),
            Value::S32(x) => Val::S32(*x),
            Value::S64(x) => Val::S64(*x),
            Value::Char(c) => Val::Char(*c),
            Value::Str(s) => Val::Str(s@),
            Value::List(vs) => Val::List(view_seq(vs@)),
            Value::Record(vs) => Val::Record(view_seq(vs@)),
            Value::Variant(d, p) => Val::Variant(
                *d,
                match p {
                    Some(b) => Some(Box::new((**b).view())),
                    None => None,
                },
            ),
            Value::Flags(x) => Val::Flags(*x),
            Value::Own(h) => Val::Own(*h),
            Value::Borrow(h) => Val::Borrow(*h),
            Value::Stream => Val::Stream,
            Value::Future => Val::Future,
        }
    }
}

/// The mathematical forms of values, in order.
pub open spec fn view_seq(vs: Seq<Value>) -> Seq<Val>
    decreases vs,
{
    if vs.len() == 0 {
        Seq::empty()
    } else {
        seq![vs[0].view()] + view_seq(vs.drop_first())
    }
}

pub proof fn lemma_view_seq(vs: Seq<Value>)
    ensures
        view_seq(vs).len() == vs.len(),
        forall|i: int| 0 <= i < vs.len() ==> #[trigger] view_seq(vs)[i] == vs[i].view(),
    decreases vs.len(),
{
    if vs.len() > 0 {
        lemma_view_seq(vs.drop_first());
        assert forall|i: int| 0 <= i < vs.len() implies #[trigger] view_seq(vs)[i] == vs[i].view() by {
            if i > 0 {
                assert(vs.drop_first()[i - 1] == vs[i]);
            }
        }
    }
}

} // verus!
