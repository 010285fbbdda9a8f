//! The closed set of element kinds that the kernel sorts.
use vstd::prelude::*;
use vstd::string::{StrSliceExecFns, StringExecFns};

verus! {

/// The numeric kind of the elements of one sort.
#[derive(Debug, Clone, Copy, PartialEq, Eq, Structural)]
pub enum DeorrType {
    F32,
    U32,
    I32,
}

/// The element kind asked for is none of the supported ones.
#[derive(Debug, Clone, Copy, PartialEq, Eq, Structural)]
pub struct DeorrTypeError;

/// The kind whose shader type name is `s`, if any.
pub open spec fn kind_named(s: Seq<char>) -> Result<DeorrType, DeorrTypeError> {
    if s == "f32"@ {
        Ok(DeorrType::F32)
    } else if s == "u32"@ {
        Ok(DeorrType::U32)
    } else if s == "i32"@ {
        Ok(DeorrType::I32)
    } else {
        Err(DeorrTypeError)
    }
}

/// The names in `names`, separated by a comma and a space.
pub open spec fn joined(names: Seq<Seq<char>>) -> Seq<char>
    decreases names.len(),
{
    if names.len() == 0 {
        Seq::empty()
    } else if names.len() == 1 {
        names[0]
    } else {
        joined(names.drop_last()) + ", "@ + names.last()
    }
}

/// The supported type names, in the order the kinds are declared.
pub open spec fn allowed_names() -> Seq<Seq<char>> {
    seq!["f32"@, "u32"@, "i32"@]
}

/// Whether two strings hold the same characters.
pub fn same_text(a: &str, b: &str) -> (r: bool)
    ensures
        r == (a@ == b@),
{
    let n = a.unicode_len();
    if n != b.unicode_len() {
        return false;
    }
    let mut i: usize = 0;
    while i < n
        invariant
            n == a@.len(),
            n == b@.len(),
            i <= n,
            a@.take(i as int) == b@.take(i as int),
        decreases n - i,
    {
        if a.get_char(i) != b.get_char(i) {
            assert(a@.take(i as int + 1)[i as int] != b@.take(i as int + 1)[i as int]);
            return false;
        }
        assert(a@.take(i as int + 1) =~= a@.take(i as int).push(a@[i as int]));
        assert(b@.take(i as int + 1) =~= b@.take(i as int).push(b@[i as int]));
        i = i + 1;
    }
    assert(a@ =~= a@.take(n as int));
    assert(b@ =~= b@.take(n as int));
    true
}

/// An element type with one fixed kind, known where a sort is called.
pub trait SortElement: Sized {
    /// The kind of every value of this type.
    spec fn spec_kind() -> DeorrType;

    fn kind() -> (r: DeorrType)
        ensures
            r == Self::spec_kind(),
    ;
}

impl SortElement for u32 {
    open spec fn spec_kind() -> DeorrType {
        DeorrType::U32
    }

    fn kind() -> (r: DeorrType) {
        DeorrType::U32
    }
}

impl SortElement for i32 {
    open spec fn spec_kind() -> DeorrType {
        DeorrType::I32
    }

    fn kind() -> (r: DeorrType) {
        DeorrType::I32
    }
}

impl DeorrType {
    /// The element type token of this kind in shader source.
    pub open spec fn spec_name(self) -> Seq<char> {
        match self {
            DeorrType::F32 => "f32"@,
            DeorrType::U32 => "u32"@,
            DeorrType::I32 => "i32"@,
        }
    }

    /// The element type token of this kind in shader source.
    pub fn name(&self) -> (r: &'static str)
        ensures
            r@ == self.spec_name(),
    {
        match self {
            DeorrType::F32 => "f32",
            DeorrType::U32 => "u32",
            DeorrType::I32 => "i32",
        }
    }

    /// The type names that a sort accepts.
    pub fn allowed_type_names() -> (r: Vec<&'static str>)
        ensures
            r@.len() == allowed_names().len(),
            forall|i: int| 0 <= i < r@.len() ==> (#[trigger] r@[i])@ == allowed_names()[i],
    {
        let r = vec!["f32", "u32", "i32"];
        assert(r@[0]@ == "f32"@);
        r
    }

    /// The kind whose type name is `name`, or an error for any other name.
    pub fn from_type_name(name: &str) -> (r: Result<Self, DeorrTypeError>)
        ensures
            r == kind_named(name@),
    {
        if same_text(name, "f32") {
            Ok(DeorrType::F32)
        } else if same_text(name, "u32") {
            Ok(DeorrType::U32)
        } else if same_text(name, "i32") {
            Ok(DeorrType::I32)
        } else {
            Err(DeorrTypeError)
        }
    }

    /// The kind of the elements of `_input`, fixed by their type.
    pub fn from_input<T: SortElement>(_input: &[T]) -> (r: Result<Self, DeorrTypeError>)
        ensures
            r == Ok::<DeorrType, DeorrTypeError>(T::spec_kind()),
    {
        Ok(T::kind())
    }

    /// Bytes taken by one element of this kind.
    pub fn byte_width(&self) -> (r: u64)
        ensures
            r == 4,
    {
        4
    }
}

impl DeorrTypeError {
    /// The text describing this error.
    pub fn message(&self) -> (r: String)
        ensures
            r@ == "Unsupported type for DeorrInput: only "@ + joined(allowed_names())
                + " are allowed"@,
    {
        let names = DeorrType::allowed_type_names();
        let ghost all = allowed_names();
        let mut list = String::new();
        let mut i: usize = 0;
        while i < names.len()
            invariant
                names@.len() == all.len(),
                forall|k: int| 0 <= k < names@.len() ==> (#[trigger] names@[k])@ == all[k],
                i <= names.len(),
                list@ == joined(all.take(i as int)),
            decreases names.len() - i,
        {
            if i > 0 {
                list.append(", ");
            }
            list.append(names[i]);
            assert(all.take(i as int + 1).drop_last() =~= all.take(i as int));
            i = i + 1;
        }
        assert(all.take(names.len() as int) =~= all);
        let mut r = String::from_str("Unsupported type for DeorrInput: only ");
        r.append(list.as_str());
        r.append(" are allowed");
        r
    }
}

/// Input to one sort: the elements and their kind.
pub struct DeorrInput<'a, T> {
    /// The elements, in their given order.
    pub v: &'a [T],
    /// Their kind, which picks the kernel's element type.
    pub t: DeorrType,
}

impl<'a, T: SortElement> DeorrInput<'a, T> {
    /// Wraps `input` together with the kind of its elements.
    pub fn new(input: &'a [T]) -> (r: Result<Self, DeorrTypeError>)
        ensures
            r matches Ok(d) && d.v@ == input@ && d.t == T::spec_kind(),
    {
        match DeorrType::from_input(input) {
            Ok(t) => Ok(DeorrInput { v: input, t }),
            Err(e) => Err(e),
        }
    }
}

} // verus!
