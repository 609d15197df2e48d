//! The class data of one class: four counts, then the static fields, the
//! instance fields, the direct methods and the virtual methods, each an array
//! of entries whose indices are stored as differences.

use vstd::prelude::*;
use crate::encoded_item::{
    accepts_all, array_traced, decode_entries, lemma_array_result_unique, single_valued, ArrayTrace,
};
use crate::error::DecodeError;
use crate::leb128::{read_uleb128, uleb128_at};

verus! {

/// The fields and methods of a class, as they stand in its class data.
#[derive(Debug)]
pub struct ClassDataItem<F, M> {
    /// The static fields of the class.
    pub static_fields: Vec<F>,
    /// The instance fields of the class.
    pub instance_fields: Vec<F>,
    /// The static and private methods and the constructors of the class.
    pub direct_methods: Vec<M>,
    /// The methods of the parent class that the class overrides.
    pub virtual_methods: Vec<M>,
}

/// The four lists of a `ClassDataItem` as sequences.
pub struct ClassDataView<F, M> {
    pub static_fields: Seq<F>,
    pub instance_fields: Seq<F>,
    pub direct_methods: Seq<M>,
    pub virtual_methods: Seq<M>,
}

impl<F, M> View for ClassDataItem<F, M> {
    type V = ClassDataView<F, M>;

    open spec fn view(&self) -> ClassDataView<F, M> {
        ClassDataView {
            static_fields: self.static_fields@,
            instance_fields: self.instance_fields@,
            direct_methods: self.direct_methods@,
            virtual_methods: self.virtual_methods@,
        }
    }
}

impl<F, M> ClassDataView<F, M> {
    /// The class data of a class without fields and methods.
    pub open spec fn empty() -> Self {
        ClassDataView {
            static_fields: Seq::empty(),
            instance_fields: Seq::empty(),
            direct_methods: Seq::empty(),
            virtual_methods: Seq::empty(),
        }
    }
}

/// The four counts at the head of the class data.
#[derive(Clone, Copy, Debug, PartialEq, Eq, Structural)]
pub struct Counts {
    pub static_fields: u32,
    pub instance_fields: u32,
    pub direct_methods: u32,
    pub virtual_methods: u32,
}

/// What reading the four counts at `at` gives: the counts and the offset
/// behind them, or the error of the first integer that cannot be read.
pub open spec fn counts_at(bytes: Seq<u8>, at: usize) -> Result<(Counts, usize), DecodeError> {
    match uleb128_at(bytes, at) {
        Err(e) => Err(e),
        Ok((static_fields, at1)) => match uleb128_at(bytes, at1) {
            Err(e) => Err(e),
            Ok((instance_fields, at2)) => match uleb128_at(bytes, at2) {
                Err(e) => Err(e),
                Ok((direct_methods, at3)) => match uleb128_at(bytes, at3) {
                    Err(e) => Err(e),
                    Ok((virtual_methods, at4)) => Ok(
                        (
                            Counts { static_fields, instance_fields, direct_methods, virtual_methods },
                            at4,
                        ),
                    ),
                },
            },
        },
    }
}

/// A record of how one class data item was read: the trace of each of its
/// four arrays. An array that was not reached, because an earlier one
/// failed, has a trace that nothing is said of.
pub struct ClassDataTrace<F, M> {
    pub static_fields: ArrayTrace<F>,
    pub instance_fields: ArrayTrace<F>,
    pub direct_methods: ArrayTrace<M>,
    pub virtual_methods: ArrayTrace<M>,
}

impl<F, M> ClassDataTrace<F, M> {
    /// Where the instance fields start, the static fields starting at `at`.
    pub open spec fn instance_fields_start(self, at: usize) -> usize {
        self.static_fields.end(at)
    }

    /// Where the direct methods start, the static fields starting at `at`.
    pub open spec fn direct_methods_start(self, at: usize) -> usize {
        self.instance_fields.end(self.instance_fields_start(at))
    }

    /// Where the virtual methods start, the static fields starting at `at`.
    pub open spec fn virtual_methods_start(self, at: usize) -> usize {
        self.direct_methods.end(self.direct_methods_start(at))
    }

    /// The error of the first array that failed, if one did.
    pub open spec fn failure(self) -> Option<DecodeError> {
        if self.static_fields.failure is Some {
            self.static_fields.failure
        } else if self.instance_fields.failure is Some {
            self.instance_fields.failure
        } else if self.direct_methods.failure is Some {
            self.direct_methods.failure
        } else {
            self.virtual_methods.failure
        }
    }

    /// What reading the class data at `start` gave: as the counts fail where
    /// they cannot be read, else as the first array that failed, else the
    /// four lists and the offset behind the last.
    pub open spec fn result(self, bytes: Seq<u8>, start: usize) -> Result<
        (ClassDataView<F, M>, usize),
        DecodeError,
    > {
        match counts_at(bytes, start) {
            Err(e) => Err(e),
            Ok((_, at)) => match self.failure() {
                Some(e) => Err(e),
                None => Ok(
                    (
                        ClassDataView {
                            static_fields: self.static_fields.items,
                            instance_fields: self.instance_fields.items,
                            direct_methods: self.direct_methods.items,
                            virtual_methods: self.virtual_methods.items,
                        },
                        self.virtual_methods.end(self.virtual_methods_start(at)),
                    ),
                ),
            },
        }
    }
}

/// Whether `trace` is a way for the class data at `start` to be read: behind
/// the counts stand the four arrays, one behind the other, each with as many
/// entries as its count says, the fields read with `decode_field` and the
/// methods with `decode_method`. After an array that failed no other is read.
pub open spec fn class_data_traced<F, M, DF, DM>(
    bytes: Seq<u8>,
    decode_field: DF,
    decode_method: DM,
    start: usize,
    trace: ClassDataTrace<F, M>,
) -> bool where
    DF: Fn(usize, u32) -> Result<(F, usize), DecodeError>,
    DM: Fn(usize, u32) -> Result<(M, usize), DecodeError>,
 {
    match counts_at(bytes, start) {
        Err(_) => true,
        Ok((counts, at)) => {
            &&& array_traced(bytes, decode_field, at, counts.static_fields, trace.static_fields)
            &&& trace.static_fields.failure is None ==> {
                &&& array_traced(
                    bytes,
                    decode_field,
                    trace.instance_fields_start(at),
                    counts.instance_fields,
                    trace.instance_fields,
                )
                &&& trace.instance_fields.failure is None ==> {
                    &&& array_traced(
                        bytes,
                        decode_method,
                        trace.direct_methods_start(at),
                        counts.direct_methods,
                        trace.direct_methods,
                    )
                    &&& trace.direct_methods.failure is None ==> array_traced(
                        bytes,
                        decode_method,
                        trace.virtual_methods_start(at),
                        counts.virtual_methods,
                        trace.virtual_methods,
                    )
                }
            }
        },
    }
}

/// With decoders that give one result on each argument, class data has one
/// result: two traces of it give the same lists and the same end, or the same
/// error.
pub proof fn lemma_class_data_result_unique<F, M, DF, DM>(
    bytes: Seq<u8>,
    decode_field: DF,
    decode_method: DM,
    start: usize,
    one: ClassDataTrace<F, M>,
    other: ClassDataTrace<F, M>,
) where
    DF: Fn(usize, u32) -> Result<(F, usize), DecodeError>,
    DM: Fn(usize, u32) -> Result<(M, usize), DecodeError>,

    requires
        single_valued(decode_field),
        single_valued(decode_method),
        class_data_traced(bytes, decode_field, decode_method, start, one),
        class_data_traced(bytes, decode_field, decode_method, start, other),
    ensures
        one.result(bytes, start) == other.result(bytes, start),
{
    match counts_at(bytes, start) {
        Err(_) => {},
        Ok((counts, at)) => {
            lemma_array_result_unique(
                bytes,
                decode_field,
                at,
                counts.static_fields,
                one.static_fields,
                other.static_fields,
            );
            if one.static_fields.failure is None {
                lemma_array_result_unique(
                    bytes,
                    decode_field,
                    one.instance_fields_start(at),
                    counts.instance_fields,
                    one.instance_fields,
                    other.instance_fields,
                );
                if one.instance_fields.failure is None {
                    lemma_array_result_unique(
                        bytes,
                        decode_method,
                        one.direct_methods_start(at),
                        counts.direct_methods,
                        one.direct_methods,
                        other.direct_methods,
                    );
                    if one.direct_methods.failure is None {
                        lemma_array_result_unique(
                            bytes,
                            decode_method,
                            one.virtual_methods_start(at),
                            counts.virtual_methods,
                            one.virtual_methods,
                            other.virtual_methods,
                        );
                    }
                }
            }
        },
    }
}

/// Reads the four counts at `*offset` and moves the offset behind them. On
/// failure the offset stays where it was.
pub fn read_counts(bytes: &[u8], offset: &mut usize) -> (r: Result<Counts, DecodeError>)
    ensures
        match counts_at(bytes@, *old(offset)) {
            Ok((counts, next)) => r == Ok::<Counts, DecodeError>(counts) && *final(offset) == next,
            Err(e) => r == Err::<Counts, DecodeError>(e) && *final(offset) == *old(offset),
        },
{
    let mut cursor = *offset;
    let static_fields = match read_uleb128(bytes, &mut cursor) {
        Ok(count) => count,
        Err(e) => return Err(e),
    };
    let instance_fields = match read_uleb128(bytes, &mut cursor) {
        Ok(count) => count,
        Err(e) => return Err(e),
    };
    let direct_methods = match read_uleb128(bytes, &mut cursor) {
        Ok(count) => count,
        Err(e) => return Err(e),
    };
    let virtual_methods = match read_uleb128(bytes, &mut cursor) {
        Ok(count) => count,
        Err(e) => return Err(e),
    };
    *offset = cursor;
    Ok(Counts { static_fields, instance_fields, direct_methods, virtual_methods })
}

impl<F, M> ClassDataItem<F, M> {
    /// The class data of a class without fields and methods.
    pub fn empty() -> (item: Self)
        ensures
            item@ == ClassDataView::<F, M>::empty(),
    {
        ClassDataItem {
            static_fields: Vec::new(),
            instance_fields: Vec::new(),
            direct_methods: Vec::new(),
            virtual_methods: Vec::new(),
        }
    }

    /// Reads the class data at `*offset` and moves the offset behind it: the
    /// four counts, then the static fields and the instance fields with
    /// `decode_field`, then the direct methods and the virtual methods with
    /// `decode_method`. On failure nothing is handed out and the offset stays
    /// where it was.
    ///
    /// The result is stated through a trace: some run of the four arrays fits
    /// the bytes and the two decoders, and the function hands out what that
    /// run gave.
    pub fn read<DF, DM>(
        bytes: &[u8],
        offset: &mut usize,
        decode_field: &DF,
        decode_method: &DM,
    ) -> (r: Result<Self, DecodeError>) where
        DF: Fn(usize, u32) -> Result<(F, usize), DecodeError>,
        DM: Fn(usize, u32) -> Result<(M, usize), DecodeError>,

        requires
            accepts_all::<F, DF>(*decode_field),
            accepts_all::<M, DM>(*decode_method),
        ensures
            exists|trace: ClassDataTrace<F, M>|
                {
                    &&& #[trigger] class_data_traced(
                        bytes@,
                        *decode_field,
                        *decode_method,
                        *old(offset),
                        trace,
                    )
                    &&& trace.result(bytes@, *old(offset)) == (match r {
                        Ok(item) => Ok::<(ClassDataView<F, M>, usize), DecodeError>(
                            (item@, *final(offset)),
                        ),
                        Err(e) => Err::<(ClassDataView<F, M>, usize), DecodeError>(e),
                    })
                },
            r is Err ==> *final(offset) == *old(offset),
    {
        let ghost start = *offset;
        let ghost mut trace: ClassDataTrace<F, M> = arbitrary();
        let mut cursor = *offset;
        let counts = match read_counts(bytes, &mut cursor) {
            Ok(counts) => counts,
            Err(e) => {
                assert(class_data_traced(bytes@, *decode_field, *decode_method, start, trace));
                return Err(e);
            },
        };
        let ghost at = cursor;
        let static_fields = decode_entries(bytes, &mut cursor, counts.static_fields, decode_field);
        proof {
            let run = choose|run: ArrayTrace<F>|
                {
                    &&& #[trigger] array_traced(bytes@, *decode_field, at, counts.static_fields, run)
                    &&& run.result(at) == (match static_fields {
                        Ok(items) => Ok::<(Seq<F>, usize), DecodeError>((items@, cursor)),
                        Err(e) => Err::<(Seq<F>, usize), DecodeError>(e),
                    })
                };
            trace = ClassDataTrace { static_fields: run, ..trace };
        }
        let static_fields = match static_fields {
            Ok(items) => items,
            Err(e) => {
                assert(class_data_traced(bytes@, *decode_field, *decode_method, start, trace));
                return Err(e);
            },
        };
        let ghost at1 = cursor;
        let instance_fields = decode_entries(bytes, &mut cursor, counts.instance_fields, decode_field);
        proof {
            let run = choose|run: ArrayTrace<F>|
                {
                    &&& #[trigger] array_traced(bytes@, *decode_field, at1, counts.instance_fields, run)
                    &&& run.result(at1) == (match instance_fields {
                        Ok(items) => Ok::<(Seq<F>, usize), DecodeError>((items@, cursor)),
                        Err(e) => Err::<(Seq<F>, usize), DecodeError>(e),
                    })
                };
            trace = ClassDataTrace { instance_fields: run, ..trace };
        }
        let instance_fields = match instance_fields {
            Ok(items) => items,
            Err(e) => {
                assert(class_data_traced(bytes@, *decode_field, *decode_method, start, trace));
                return Err(e);
            },
        };
        let ghost at2 = cursor;
        let direct_methods = decode_entries(bytes, &mut cursor, counts.direct_methods, decode_method);
        proof {
            let run = choose|run: ArrayTrace<M>|
                {
                    &&& #[trigger] array_traced(bytes@, *decode_method, at2, counts.direct_methods, run)
                    &&& run.result(at2) == (match direct_methods {
                        Ok(items) => Ok::<(Seq<M>, usize), DecodeError>((items@, cursor)),
                        Err(e) => Err::<(Seq<M>, usize), DecodeError>(e),
                    })
                };
            trace = ClassDataTrace { direct_methods: run, ..trace };
        }
        let direct_methods = match direct_methods {
            Ok(items) => items,
            Err(e) => {
                assert(class_data_traced(bytes@, *decode_field, *decode_method, start, trace));
                return Err(e);
            },
        };
        let ghost at3 = cursor;
        let virtual_methods = decode_entries(bytes, &mut cursor, counts.virtual_methods, decode_method);
        proof {
            let run = choose|run: ArrayTrace<M>|
                {
                    &&& #[trigger] array_traced(bytes@, *decode_method, at3, counts.virtual_methods, run)
                    &&& run.result(at3) == (match virtual_methods {
                        Ok(items) => Ok::<(Seq<M>, usize), DecodeError>((items@, cursor)),
                        Err(e) => Err::<(Seq<M>, usize), DecodeError>(e),
                    })
                };
            trace = ClassDataTrace { virtual_methods: run, ..trace };
        }
        let virtual_methods = match virtual_methods {
            Ok(items) => items,
            Err(e) => {
                assert(class_data_traced(bytes@, *decode_field, *decode_method, start, trace));
                return Err(e);
            },
        };
        *offset = cursor;
        assert(class_data_traced(bytes@, *decode_field, *decode_method, start, trace));
        Ok(ClassDataItem { static_fields, instance_fields, direct_methods, virtual_methods })
    }

    /// The static fields of the class.
    pub fn static_fields(&self) -> (r: &Vec<F>)
        ensures
            r@ == self@.static_fields,
    {
        &self.static_fields
    }

    /// The instance fields of the class.
    pub fn instance_fields(&self) -> (r: &Vec<F>)
        ensures
            r@ == self@.instance_fields,
    {
        &self.instance_fields
    }

    /// The static and private methods and the constructors of the class.
    pub fn direct_methods(&self) -> (r: &Vec<M>)
        ensures
            r@ == self@.direct_methods,
    {
        &self.direct_methods
    }

    /// The methods of the parent class that the class overrides.
    pub fn virtual_methods(&self) -> (r: &Vec<M>)
        ensures
            r@ == self@.virtual_methods,
    {
        &self.virtual_methods
    }
}

} // verus!
