//! The class definitions: records of eight 32-bit fields, one per class, that
//! stand one behind the other in the buffer.

use vstd::prelude::*;
use crate::error::DecodeError;
use crate::source::{read_u32, word_at, Endian};

verus! {

/// The value of an index field that names nothing.
pub const NO_INDEX: u32 = 0xffff_ffff;

/// The size in bytes of one class definition.
pub const CLASS_DEF_SIZE: usize = 32;

/// The places of the contents of one class.
#[derive(Clone, Copy, Debug, PartialEq, Eq, Structural)]
pub struct ClassDefItem {
    /// Index of the type of the class.
    pub class_idx: u32,
    /// The access flags of the class, as they stand in the buffer.
    pub access_flags: u32,
    /// Index of the type of the super class, or `NO_INDEX`.
    pub superclass_idx: u32,
    /// Offset of the list of the interfaces, or 0 where there is none.
    pub interfaces_off: u32,
    /// Index of the name of the source file, or `NO_INDEX`.
    pub source_file_idx: u32,
    /// Offset of the annotations of the class, or 0 where there are none.
    pub annotations_off: u32,
    /// Offset of the class data, or 0 where the class has no fields and methods.
    pub class_data_off: u32,
    /// Offset of the initial values of the static fields, or 0 where all of
    /// them start as zero or null.
    pub static_values_off: u32,
}

/// The class definition that the 32 bytes from `at` on hold.
pub open spec fn class_def_of(bytes: Seq<u8>, at: int, endian: Endian) -> ClassDefItem {
    ClassDefItem {
        class_idx: word_at(bytes, at, endian),
        access_flags: word_at(bytes, at + 4, endian),
        superclass_idx: word_at(bytes, at + 8, endian),
        interfaces_off: word_at(bytes, at + 12, endian),
        source_file_idx: word_at(bytes, at + 16, endian),
        annotations_off: word_at(bytes, at + 20, endian),
        class_data_off: word_at(bytes, at + 24, endian),
        static_values_off: word_at(bytes, at + 28, endian),
    }
}

/// What reading one class definition at `at` gives: the record and the offset
/// behind it, or `Truncated` where fewer than 32 bytes are left.
pub open spec fn class_def_at(bytes: Seq<u8>, at: usize, endian: Endian) -> Result<
    (ClassDefItem, usize),
    DecodeError,
> {
    if at + CLASS_DEF_SIZE <= bytes.len() {
        Ok((class_def_of(bytes, at as int, endian), (at + CLASS_DEF_SIZE) as usize))
    } else {
        Err(DecodeError::Truncated { offset: at })
    }
}

impl ClassDefItem {
    /// Reads one class definition at `*offset` and moves the offset behind
    /// it. On failure the offset stays where it was.
    pub fn read(bytes: &[u8], offset: &mut usize, endian: Endian) -> (r: Result<
        ClassDefItem,
        DecodeError,
    >)
        ensures
            match class_def_at(bytes@, *old(offset), endian) {
                Ok((item, next)) => r == Ok::<ClassDefItem, DecodeError>(item) && *final(offset)
                    == next,
                Err(e) => r == Err::<ClassDefItem, DecodeError>(e) && *final(offset) == *old(
                    offset,
                ),
            },
    {
        let start = *offset;
        let truncated = DecodeError::Truncated { offset: start };
        assert(bytes@.len() == bytes.len());
        let mut cursor = start;
        let class_idx = match read_u32(bytes, &mut cursor, endian) {
            Ok(value) => value,
            Err(_) => return Err(truncated),
        };
        let access_flags = match read_u32(bytes, &mut cursor, endian) {
            Ok(value) => value,
            Err(_) => return Err(truncated),
        };
        let superclass_idx = match read_u32(bytes, &mut cursor, endian) {
            Ok(value) => value,
            Err(_) => return Err(truncated),
        };
        let interfaces_off = match read_u32(bytes, &mut cursor, endian) {
            Ok(value) => value,
            Err(_) => return Err(truncated),
        };
        let source_file_idx = match read_u32(bytes, &mut cursor, endian) {
            Ok(value) => value,
            Err(_) => return Err(truncated),
        };
        let annotations_off = match read_u32(bytes, &mut cursor, endian) {
            Ok(value) => value,
            Err(_) => return Err(truncated),
        };
        let class_data_off = match read_u32(bytes, &mut cursor, endian) {
            Ok(value) => value,
            Err(_) => return Err(truncated),
        };
        let static_values_off = match read_u32(bytes, &mut cursor, endian) {
            Ok(value) => value,
            Err(_) => return Err(truncated),
        };
        *offset = cursor;
        Ok(
            ClassDefItem {
                class_idx,
                access_flags,
                superclass_idx,
                interfaces_off,
                source_file_idx,
                annotations_off,
                class_data_off,
                static_values_off,
            },
        )
    }

    /// Index of the type of the class.
    pub fn class_idx(&self) -> (r: u32)
        ensures
            r == self.class_idx,
    {
        self.class_idx
    }

    /// The access flags of the class, as they stand in the buffer.
    pub fn access_flags(&self) -> (r: u32)
        ensures
            r == self.access_flags,
    {
        self.access_flags
    }

    /// Index of the type of the super class, or `NO_INDEX`.
    pub fn superclass_idx(&self) -> (r: u32)
        ensures
            r == self.superclass_idx,
    {
        self.superclass_idx
    }

    /// Offset of the list of the interfaces, or 0 where there is none.
    pub fn interfaces_off(&self) -> (r: u32)
        ensures
            r == self.interfaces_off,
    {
        self.interfaces_off
    }

    /// Index of the name of the source file, or `NO_INDEX`.
    pub fn source_file_idx(&self) -> (r: u32)
        ensures
            r == self.source_file_idx,
    {
        self.source_file_idx
    }

    /// Offset of the annotations of the class, or 0 where there are none.
    pub fn annotations_off(&self) -> (r: u32)
        ensures
            r == self.annotations_off,
    {
        self.annotations_off
    }

    /// Offset of the class data, or 0 where the class has no fields and
    /// methods.
    pub fn class_data_off(&self) -> (r: u32)
        ensures
            r == self.class_data_off,
    {
        self.class_data_off
    }

    /// Offset of the initial values of the static fields, or 0 where all of
    /// them start as zero or null.
    pub fn static_values_off(&self) -> (r: u32)
        ensures
            r == self.static_values_off,
    {
        self.static_values_off
    }
}

/// A walk over the class definitions of a buffer: where the next record
/// starts, and how many are still to come.
pub struct ClassDefItemIter<'a> {
    source: &'a [u8],
    offset: usize,
    len: u32,
    endian: Endian,
}

/// The state of a walk: the buffer, the offset of the next record, the number
/// of records still to come, and the byte order.
pub struct ClassDefItemIterView {
    pub source: Seq<u8>,
    pub offset: usize,
    pub len: u32,
    pub endian: Endian,
}

impl ClassDefItemIterView {
    /// What the next step of the walk gives, and the state behind it. With no
    /// record to come the walk is over and the state stays. Else one record
    /// fewer is to come, and the item is what reading at the offset gives: a
    /// record, with the offset moved behind it, or the failure, with the
    /// offset left in place.
    pub open spec fn step(self) -> (Option<Result<ClassDefItem, DecodeError>>, Self) {
        if self.len == 0 {
            (None, self)
        } else {
            match class_def_at(self.source, self.offset, self.endian) {
                Ok((item, next)) => (
                    Some(Ok(item)),
                    ClassDefItemIterView { offset: next, len: (self.len - 1) as u32, ..self },
                ),
                Err(e) => (
                    Some(Err(e)),
                    ClassDefItemIterView { len: (self.len - 1) as u32, ..self },
                ),
            }
        }
    }

    /// The items that the walk gives from this state on, in order.
    pub open spec fn remaining(self) -> Seq<Result<ClassDefItem, DecodeError>>
        decreases self.len,
    {
        match self.step() {
            (None, _) => Seq::empty(),
            (Some(item), next) => seq![item] + next.remaining(),
        }
    }

    /// The number of whole records that the buffer holds from the offset on.
    pub open spec fn whole_records(self) -> int {
        if self.offset <= self.source.len() {
            (self.source.len() - self.offset) / (CLASS_DEF_SIZE as int)
        } else {
            0
        }
    }
}

impl<'a> View for ClassDefItemIter<'a> {
    type V = ClassDefItemIterView;

    closed spec fn view(&self) -> ClassDefItemIterView {
        ClassDefItemIterView {
            source: self.source@,
            offset: self.offset,
            len: self.len,
            endian: self.endian,
        }
    }
}

impl<'a> ClassDefItemIter<'a> {
    /// A walk over the `len` class definitions that start at `offset` in
    /// `source`.
    pub fn new(source: &'a [u8], offset: u32, len: u32, endian: Endian) -> (iter: Self)
        ensures
            iter@ == (ClassDefItemIterView { source: source@, offset: offset as usize, len, endian }),
    {
        ClassDefItemIter { source, offset: offset as usize, len, endian }
    }

    /// The next class definition, or `None` where all have been given. A
    /// record that cannot be read is given as its error; the walk goes on
    /// behind it with one record fewer to come.
    pub fn next(&mut self) -> (r: Option<Result<ClassDefItem, DecodeError>>)
        ensures
            (r, final(self)@) == old(self)@.step(),
    {
        if self.len == 0 {
            return None;
        }
        let mut cursor = self.offset;
        let item = ClassDefItem::read(self.source, &mut cursor, self.endian);
        self.offset = cursor;
        self.len = self.len - 1;
        Some(item)
    }

    /// The number of records still to come.
    pub fn len(&self) -> (r: u32)
        ensures
            r == self@.len,
    {
        self.len
    }

    /// The offset at which the next record is read.
    pub fn offset(&self) -> (r: usize)
        ensures
            r == self@.offset,
    {
        self.offset
    }
}

/// A walk over records that the buffer holds in full gives every one of them
/// and then ends: it has as many items as records were announced, and item
/// `i` is the record that stands `i` records behind the offset.
pub proof fn lemma_walk_gives_every_record(state: ClassDefItemIterView)
    requires
        state.source.len() <= usize::MAX,
        state.offset + CLASS_DEF_SIZE * state.len <= state.source.len(),
    ensures
        state.remaining().len() == state.len,
        forall|i: int|
            0 <= i < state.len ==> #[trigger] state.remaining()[i] == Ok::<ClassDefItem, DecodeError>(
                class_def_of(state.source, state.offset + CLASS_DEF_SIZE * i, state.endian),
            ),
    decreases state.len,
{
    if state.len > 0 {
        let next = state.step().1;
        lemma_walk_gives_every_record(next);
        assert forall|i: int| 0 <= i < state.len implies #[trigger] state.remaining()[i] == Ok::<
            ClassDefItem,
            DecodeError,
        >(class_def_of(state.source, state.offset + CLASS_DEF_SIZE * i, state.endian)) by {
            if i > 0 {
                assert(state.remaining()[i] == next.remaining()[i - 1]);
            }
        }
    }
}

/// A walk over more records than the buffer holds gives the whole records,
/// and `Truncated` for the record that crosses the end of the buffer and for
/// each one announced behind it: the walk stays at the record that cannot be
/// read.
pub proof fn lemma_walk_reports_truncation(state: ClassDefItemIterView)
    requires
        state.source.len() <= usize::MAX,
        state.offset + CLASS_DEF_SIZE * state.len > state.source.len(),
    ensures
        state.remaining().len() == state.len,
        0 <= state.whole_records(),
        state.len > 0 ==> state.whole_records() < state.len,
        forall|i: int|
            0 <= i < state.whole_records() ==> #[trigger] state.remaining()[i] == Ok::<
                ClassDefItem,
                DecodeError,
            >(class_def_of(state.source, state.offset + CLASS_DEF_SIZE * i, state.endian)),
        forall|i: int|
            state.whole_records() <= i < state.len ==> #[trigger] state.remaining()[i] == Err::<
                ClassDefItem,
                DecodeError,
            >(
                DecodeError::Truncated {
                    offset: (state.offset + CLASS_DEF_SIZE * state.whole_records()) as usize,
                },
            ),
    decreases state.len,
{
    if state.len > 0 {
        let next = state.step().1;
        if state.len > 1 {
            lemma_walk_reports_truncation(next);
        } else {
            assert(next.remaining() =~= Seq::empty());
        }
        assert forall|i: int| 0 < i < state.len implies state.remaining()[i] == next.remaining()[i
            - 1] by {}
        if state.offset + CLASS_DEF_SIZE <= state.source.len() {
            assert(state.whole_records() == next.whole_records() + 1);
        } else {
            assert(state.whole_records() == 0);
            assert(next.whole_records() == 0);
        }
    }
}

} // verus!
