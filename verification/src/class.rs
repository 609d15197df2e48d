//! A class, linked from its class definition and its class data.
//!
//! What stands behind the indices and offsets of a class definition is found
//! by collaborators that the caller brings: functions from an index or an
//! offset to a value. The library calls them in a fixed order and stops at
//! the first that fails.

use vstd::prelude::*;
use crate::access_flags::{known, AccessFlags};
use crate::class_data::{
    class_data_traced, lemma_class_data_result_unique, ClassDataItem, ClassDataTrace, ClassDataView,
};
use crate::class_def::{ClassDefItem, NO_INDEX};
use crate::encoded_item::{accepts_all, single_valued};
use crate::error::DecodeError;

verus! {

/// An index into the types of the buffer. The type there is the type of a
/// class: no primitive and no array.
pub type ClassId = u32;

/// The buffer and the collaborators that find what a class definition names.
///
/// `decode_field` and `decode_method` are handed an offset into `source` and
/// the index of the entry, and give the entity with the offset behind it.
/// The others are handed the index or offset that stands in the class
/// definition.
pub struct Dex<'a, RT, RS, DF, DM, DI, DA, DV> {
    /// The buffer that the offsets point into.
    pub source: &'a [u8],
    /// From the index of a type to the type.
    pub resolve_type: RT,
    /// From the index of a string to the string, if there is one.
    pub resolve_string: RS,
    /// Decodes what follows the index of one field.
    pub decode_field: DF,
    /// Decodes what follows the index of one method.
    pub decode_method: DM,
    /// From the offset of a list of interfaces to their types.
    pub decode_interfaces: DI,
    /// From the offset of the annotations of a class to the annotations.
    pub decode_annotations: DA,
    /// From the offset of initial values to the values.
    pub decode_static_values: DV,
}

/// A class with all that its class definition names.
#[derive(Debug)]
pub struct Class<T, S, A, F, M, V> {
    id: ClassId,
    jtype: T,
    access_flags: AccessFlags,
    super_class: Option<ClassId>,
    interfaces: Option<Vec<T>>,
    annotations: Option<A>,
    source_file: Option<S>,
    static_fields: Vec<F>,
    instance_fields: Vec<F>,
    direct_methods: Vec<M>,
    virtual_methods: Vec<M>,
    static_values: Vec<V>,
}

/// What a `Class` holds, its lists as sequences and its flags as a bit mask.
pub struct ClassView<T, S, A, F, M, V> {
    /// Index of the type of the class.
    pub id: ClassId,
    /// The type of the class.
    pub jtype: T,
    /// The access flags of the class.
    pub access_flags: u32,
    /// Index of the type of the super class.
    pub super_class: Option<ClassId>,
    /// The interfaces that the class implements.
    pub interfaces: Option<Seq<T>>,
    /// The annotations of the class, of its fields, methods and parameters.
    pub annotations: Option<A>,
    /// The name of the file that the class stands in.
    pub source_file: Option<S>,
    /// The static fields of the class.
    pub static_fields: Seq<F>,
    /// The instance fields of the class.
    pub instance_fields: Seq<F>,
    /// The static and private methods and the constructors of the class.
    pub direct_methods: Seq<M>,
    /// The methods of the parent class that the class overrides.
    pub virtual_methods: Seq<M>,
    /// The initial values of the static fields, in the order of the fields.
    /// A static field without a value here starts as zero or null.
    pub static_values: Seq<V>,
}

impl<T, S, A, F, M, V> ClassView<T, S, A, F, M, V> {
    /// What holds of every class: its access flags are known flags.
    pub open spec fn well_formed(self) -> bool {
        known(self.access_flags)
    }

    /// All fields: the static ones, then the instance ones.
    pub open spec fn fields(self) -> Seq<F> {
        self.static_fields + self.instance_fields
    }

    /// All methods: the direct ones, then the virtual ones.
    pub open spec fn methods(self) -> Seq<M> {
        self.direct_methods + self.virtual_methods
    }
}

impl<T, S, A, F, M, V> View for Class<T, S, A, F, M, V> {
    type V = ClassView<T, S, A, F, M, V>;

    closed spec fn view(&self) -> ClassView<T, S, A, F, M, V> {
        ClassView {
            id: self.id,
            jtype: self.jtype,
            access_flags: self.access_flags.spec_bits(),
            super_class: self.super_class,
            interfaces: match self.interfaces {
                Some(types) => Some(types@),
                None => None,
            },
            annotations: self.annotations,
            source_file: self.source_file,
            static_fields: self.static_fields@,
            instance_fields: self.instance_fields@,
            direct_methods: self.direct_methods@,
            virtual_methods: self.virtual_methods@,
            static_values: self.static_values@,
        }
    }
}

/// The super class that a class definition with `superclass_idx` in its
/// super class field is given.
///
/// This is the one place that decides it. The field is handed on where it
/// holds `NO_INDEX`, and every other value gives `None`. Mind the polarity:
/// the format itself reads the other way round, with `NO_INDEX` for a class
/// that has no super class. Callers rely on the rule as it stands, so it is
/// kept until the format's reading is confirmed on real files; to turn it,
/// change the comparison here.
pub open spec fn super_class_of(superclass_idx: u32) -> Option<ClassId> {
    if superclass_idx == NO_INDEX {
        Some(superclass_idx)
    } else {
        None
    }
}

/// The super class that a class definition with `superclass_idx` in its
/// super class field is given: see `super_class_of`.
pub fn resolve_super_class(superclass_idx: u32) -> (r: Option<ClassId>)
    ensures
        r == super_class_of(superclass_idx),
{
    if superclass_idx == NO_INDEX {
        Some(superclass_idx)
    } else {
        None
    }
}

/// A record of the lookups of one assembly: what each collaborator gave. A
/// lookup that was not made holds a value that nothing is said of.
pub struct Lookups<T, S, A, F, M, V> {
    /// What `resolve_type` gave for the index of the class.
    pub jtype: Result<T, DecodeError>,
    /// How the class data was read.
    pub class_data: ClassDataTrace<F, M>,
    /// What `decode_static_values` gave.
    pub static_values: Result<Vec<V>, DecodeError>,
    /// What `decode_annotations` gave.
    pub annotations: Result<Option<A>, DecodeError>,
    /// What `decode_interfaces` gave.
    pub interfaces: Result<Option<Vec<T>>, DecodeError>,
    /// What `resolve_string` gave for the index of the source file.
    pub source_file: Result<Option<S>, DecodeError>,
}

impl<T, S, A, F, M, V> Lookups<T, S, A, F, M, V> {
    /// The fields and methods: none where the class definition has no class
    /// data, else what reading the class data gave.
    pub open spec fn members(self, bytes: Seq<u8>, class_def: ClassDefItem) -> Result<
        ClassDataView<F, M>,
        DecodeError,
    > {
        if class_def.class_data_off == 0 {
            Ok(ClassDataView::empty())
        } else {
            match self.class_data.result(bytes, class_def.class_data_off as usize) {
                Ok((members, _)) => Ok(members),
                Err(e) => Err(e),
            }
        }
    }

    /// The initial values of the static fields: none where the class
    /// definition has no class data or no values, else what the lookup gave.
    pub open spec fn initial_values(self, class_def: ClassDefItem) -> Result<Seq<V>, DecodeError> {
        if class_def.class_data_off == 0 || class_def.static_values_off == 0 {
            Ok(Seq::empty())
        } else {
            match self.static_values {
                Ok(values) => Ok(values@),
                Err(e) => Err(e),
            }
        }
    }

    /// The annotations: none where the class definition has none, else what
    /// the lookup gave.
    pub open spec fn class_annotations(self, class_def: ClassDefItem) -> Result<Option<A>, DecodeError> {
        if class_def.annotations_off == 0 {
            Ok(None)
        } else {
            self.annotations
        }
    }

    /// The interfaces: none where the class definition has no list of them,
    /// else what the lookup gave.
    pub open spec fn implemented(self, class_def: ClassDefItem) -> Result<
        Option<Seq<T>>,
        DecodeError,
    > {
        if class_def.interfaces_off == 0 {
            Ok(None)
        } else {
            match self.interfaces {
                Ok(Some(types)) => Ok(Some(types@)),
                Ok(None) => Ok(None),
                Err(e) => Err(e),
            }
        }
    }

    /// The source file: none where the class definition names none, else
    /// what the lookup gave.
    pub open spec fn source(self, class_def: ClassDefItem) -> Result<Option<S>, DecodeError> {
        if class_def.source_file_idx == NO_INDEX {
            Ok(None)
        } else {
            self.source_file
        }
    }

    /// What the assembly gives. The steps are taken in this order, and the
    /// first that fails decides the error: the type of the class, whose
    /// failure is reported as `InvalidId` of the class index; the class data;
    /// the initial values; the annotations; the interfaces; the access flags,
    /// which fail with `InvalidId` of the class index where a bit is no
    /// known flag; the source file.
    pub open spec fn result(self, bytes: Seq<u8>, class_def: ClassDefItem) -> Result<
        ClassView<T, S, A, F, M, V>,
        DecodeError,
    > {
        let invalid = DecodeError::InvalidId { id: class_def.class_idx };
        match self.jtype {
            Err(_) => Err(invalid),
            Ok(jtype) => match self.members(bytes, class_def) {
                Err(e) => Err(e),
                Ok(members) => match self.initial_values(class_def) {
                    Err(e) => Err(e),
                    Ok(static_values) => match self.class_annotations(class_def) {
                        Err(e) => Err(e),
                        Ok(annotations) => match self.implemented(class_def) {
                            Err(e) => Err(e),
                            Ok(interfaces) => if !known(class_def.access_flags) {
                                Err(invalid)
                            } else {
                                match self.source(class_def) {
                                    Err(e) => Err(e),
                                    Ok(source_file) => Ok(
                                        ClassView {
                                            id: class_def.class_idx,
                                            jtype,
                                            access_flags: class_def.access_flags,
                                            super_class: super_class_of(class_def.superclass_idx),
                                            interfaces,
                                            annotations,
                                            source_file,
                                            static_fields: members.static_fields,
                                            instance_fields: members.instance_fields,
                                            direct_methods: members.direct_methods,
                                            virtual_methods: members.virtual_methods,
                                            static_values,
                                        },
                                    ),
                                }
                            },
                        },
                    },
                },
            },
        }
    }
}

/// Whether `lookup` gives one result on each index or offset.
pub open spec fn single_valued_lookup<R, L>(lookup: L) -> bool where L: Fn(u32) -> R {
    forall|at: u32, r1: R, r2: R|
        #[trigger] call_ensures(lookup, (at,), r1) && #[trigger] call_ensures(lookup, (at,), r2)
            ==> r1 == r2
}

impl<'a, T, S, A, F, M, V, RT, RS, DF, DM, DI, DA, DV> Dex<'a, RT, RS, DF, DM, DI, DA, DV> where
    RT: Fn(u32) -> Result<T, DecodeError>,
    RS: Fn(u32) -> Result<Option<S>, DecodeError>,
    DF: Fn(usize, u32) -> Result<(F, usize), DecodeError>,
    DM: Fn(usize, u32) -> Result<(M, usize), DecodeError>,
    DI: Fn(u32) -> Result<Option<Vec<T>>, DecodeError>,
    DA: Fn(u32) -> Result<Option<A>, DecodeError>,
    DV: Fn(u32) -> Result<Vec<V>, DecodeError>,
 {
    /// Whether every collaborator may be called on every argument.
    pub open spec fn callable(self) -> bool {
        &&& forall|index: u32| call_requires(self.resolve_type, (index,))
        &&& forall|index: u32| call_requires(self.resolve_string, (index,))
        &&& accepts_all::<F, DF>(self.decode_field)
        &&& accepts_all::<M, DM>(self.decode_method)
        &&& forall|offset: u32| call_requires(self.decode_interfaces, (offset,))
        &&& forall|offset: u32| call_requires(self.decode_annotations, (offset,))
        &&& forall|offset: u32| call_requires(self.decode_static_values, (offset,))
    }

    /// Whether every collaborator gives one result on each argument: what it
    /// gives depends on nothing but what it is handed.
    pub open spec fn single_valued(self) -> bool {
        &&& single_valued_lookup::<Result<T, DecodeError>, RT>(self.resolve_type)
        &&& single_valued_lookup::<Result<Option<S>, DecodeError>, RS>(self.resolve_string)
        &&& single_valued::<F, DF>(self.decode_field)
        &&& single_valued::<M, DM>(self.decode_method)
        &&& single_valued_lookup::<Result<Option<Vec<T>>, DecodeError>, DI>(self.decode_interfaces)
        &&& single_valued_lookup::<Result<Option<A>, DecodeError>, DA>(self.decode_annotations)
        &&& single_valued_lookup::<Result<Vec<V>, DecodeError>, DV>(self.decode_static_values)
    }

    /// Whether `lookups` is a way for the lookups of `class_def` to come
    /// out: each lookup that is made gave what its collaborator can give on
    /// the field of the class definition. A lookup is made where all before it succeeded
    /// and its field names something: no class data is read at offset 0, no
    /// initial values are looked up without class data or at offset 0, no
    /// annotations and no interfaces at offset 0, and no source file at
    /// `NO_INDEX` or behind access flags that are not known.
    pub open spec fn admits(self, class_def: ClassDefItem, lookups: Lookups<T, S, A, F, M, V>) -> bool {
        let bytes = self.source@;
        &&& call_ensures(self.resolve_type, (class_def.class_idx,), lookups.jtype)
        &&& lookups.jtype is Ok ==> {
            &&& class_def.class_data_off != 0 ==> class_data_traced(
                bytes,
                self.decode_field,
                self.decode_method,
                class_def.class_data_off as usize,
                lookups.class_data,
            )
            &&& lookups.members(bytes, class_def) is Ok ==> {
                &&& class_def.class_data_off != 0 && class_def.static_values_off != 0
                    ==> call_ensures(
                    self.decode_static_values,
                    (class_def.static_values_off,),
                    lookups.static_values,
                )
                &&& lookups.initial_values(class_def) is Ok ==> {
                    &&& class_def.annotations_off != 0 ==> call_ensures(
                        self.decode_annotations,
                        (class_def.annotations_off,),
                        lookups.annotations,
                    )
                    &&& lookups.class_annotations(class_def) is Ok ==> {
                        &&& class_def.interfaces_off != 0 ==> call_ensures(
                            self.decode_interfaces,
                            (class_def.interfaces_off,),
                            lookups.interfaces,
                        )
                        &&& lookups.implemented(class_def) is Ok && known(class_def.access_flags)
                            && class_def.source_file_idx != NO_INDEX ==> call_ensures(
                            self.resolve_string,
                            (class_def.source_file_idx,),
                            lookups.source_file,
                        )
                    }
                }
            }
        }
    }

    /// Assembling twice gives the same. With collaborators that give one
    /// result on each argument, any two records of the lookups of one class
    /// definition over one buffer end in the same class, equal in every
    /// field, or in the same error.
    pub proof fn lemma_assembly_repeats(
        self,
        class_def: ClassDefItem,
        one: Lookups<T, S, A, F, M, V>,
        other: Lookups<T, S, A, F, M, V>,
    )
        requires
            self.single_valued(),
            self.admits(class_def, one),
            self.admits(class_def, other),
        ensures
            one.result(self.source@, class_def) == other.result(self.source@, class_def),
    {
        let bytes = self.source@;
        assert(one.jtype == other.jtype);
        if one.jtype is Ok {
            if class_def.class_data_off != 0 {
                lemma_class_data_result_unique(
                    bytes,
                    self.decode_field,
                    self.decode_method,
                    class_def.class_data_off as usize,
                    one.class_data,
                    other.class_data,
                );
            }
            assert(one.members(bytes, class_def) == other.members(bytes, class_def));
            if one.members(bytes, class_def) is Ok {
                assert(one.initial_values(class_def) == other.initial_values(class_def));
                if one.initial_values(class_def) is Ok {
                    assert(one.class_annotations(class_def) == other.class_annotations(class_def));
                    if one.class_annotations(class_def) is Ok {
                        assert(one.implemented(class_def) == other.implemented(class_def));
                        if one.implemented(class_def) is Ok && known(class_def.access_flags) {
                            assert(one.source(class_def) == other.source(class_def));
                        }
                    }
                }
            }
        }
    }
}

/// Access flags with a bit that is no known flag are rejected: where the
/// class data, the initial values, the annotations and the interfaces were
/// found, the assembly fails with `InvalidId` of the class index. Where one
/// of those failed, its error comes first.
pub proof fn lemma_unknown_flag_rejected<T, S, A, F, M, V>(
    bytes: Seq<u8>,
    class_def: ClassDefItem,
    lookups: Lookups<T, S, A, F, M, V>,
)
    requires
        !known(class_def.access_flags),
    ensures
        lookups.result(bytes, class_def) is Err,
        lookups.members(bytes, class_def) is Ok && lookups.initial_values(class_def) is Ok
            && lookups.class_annotations(class_def) is Ok && lookups.implemented(class_def) is Ok
            ==> lookups.result(bytes, class_def) == Err::<ClassView<T, S, A, F, M, V>, DecodeError>(
            DecodeError::InvalidId { id: class_def.class_idx },
        ),
{
}

/// A field of the class definition that names nothing gives the empty value,
/// whatever the collaborators would give: no interfaces at offset 0, no
/// annotations at offset 0, no initial values at offset 0, and without class
/// data no field, no method and no initial value.
pub proof fn lemma_sentinel_defaults<T, S, A, F, M, V>(
    bytes: Seq<u8>,
    class_def: ClassDefItem,
    lookups: Lookups<T, S, A, F, M, V>,
)
    ensures
        lookups.result(bytes, class_def) matches Ok(class) ==> {
            &&& class_def.interfaces_off == 0 ==> class.interfaces is None
            &&& class_def.annotations_off == 0 ==> class.annotations is None
            &&& class_def.static_values_off == 0 ==> class.static_values == Seq::<V>::empty()
            &&& class_def.class_data_off == 0 ==> {
                &&& class.static_fields == Seq::<F>::empty()
                &&& class.instance_fields == Seq::<F>::empty()
                &&& class.direct_methods == Seq::<M>::empty()
                &&& class.virtual_methods == Seq::<M>::empty()
                &&& class.static_values == Seq::<V>::empty()
            }
        },
{
}

impl<T, S, A, F, M, V> Class<T, S, A, F, M, V> {
    /// Links the class that `class_def` defines: looks up what its fields
    /// name, reads its class data, and checks its access flags.
    ///
    /// What the collaborators give is their own affair, so the result is
    /// stated through a record of the lookups: some such record fits the
    /// collaborators, and the function hands out what `Lookups::result` makes
    /// of it. A field that names nothing gives the empty value without a
    /// lookup, and access flags with a bit that is no known flag never give a
    /// class.
    pub fn try_from_dex<'a, RT, RS, DF, DM, DI, DA, DV>(
        dex: &Dex<'a, RT, RS, DF, DM, DI, DA, DV>,
        class_def: &ClassDefItem,
    ) -> (r: Result<Self, DecodeError>) where
        RT: Fn(u32) -> Result<T, DecodeError>,
        RS: Fn(u32) -> Result<Option<S>, DecodeError>,
        DF: Fn(usize, u32) -> Result<(F, usize), DecodeError>,
        DM: Fn(usize, u32) -> Result<(M, usize), DecodeError>,
        DI: Fn(u32) -> Result<Option<Vec<T>>, DecodeError>,
        DA: Fn(u32) -> Result<Option<A>, DecodeError>,
        DV: Fn(u32) -> Result<Vec<V>, DecodeError>,

        requires
            dex.callable(),
        ensures
            exists|lookups: Lookups<T, S, A, F, M, V>|
                {
                    &&& #[trigger] dex.admits(*class_def, lookups)
                    &&& lookups.result(dex.source@, *class_def) == (match r {
                        Ok(class) => Ok::<ClassView<T, S, A, F, M, V>, DecodeError>(class@),
                        Err(e) => Err::<ClassView<T, S, A, F, M, V>, DecodeError>(e),
                    })
                },
            r matches Ok(class) ==> {
                &&& class@.well_formed()
                &&& class_def.interfaces_off == 0 ==> class@.interfaces is None
                &&& class_def.annotations_off == 0 ==> class@.annotations is None
                &&& class_def.static_values_off == 0 ==> class@.static_values.len() == 0
                &&& class_def.class_data_off == 0 ==> {
                    &&& class@.static_fields.len() == 0
                    &&& class@.instance_fields.len() == 0
                    &&& class@.direct_methods.len() == 0
                    &&& class@.virtual_methods.len() == 0
                    &&& class@.static_values.len() == 0
                }
                &&& class_def.source_file_idx == NO_INDEX ==> class@.source_file is None
            },
            !known(class_def.access_flags) ==> r is Err,
    {
        let ghost bytes = dex.source@;
        let ghost mut lookups: Lookups<T, S, A, F, M, V> = arbitrary();
        let invalid = DecodeError::InvalidId { id: class_def.class_idx };

        let found = (dex.resolve_type)(class_def.class_idx);
        proof {
            lookups = Lookups { jtype: found, ..lookups };
        }
        let jtype = match found {
            Ok(jtype) => jtype,
            Err(_) => {
                assert(dex.admits(*class_def, lookups));
                return Err(invalid);
            },
        };

        let members = if class_def.class_data_off == 0 {
            ClassDataItem::empty()
        } else {
            let mut cursor = class_def.class_data_off as usize;
            let read = ClassDataItem::read(
                dex.source,
                &mut cursor,
                &dex.decode_field,
                &dex.decode_method,
            );
            proof {
                let trace = choose|trace: ClassDataTrace<F, M>|
                    {
                        &&& #[trigger] class_data_traced(
                            bytes,
                            dex.decode_field,
                            dex.decode_method,
                            class_def.class_data_off as usize,
                            trace,
                        )
                        &&& trace.result(bytes, class_def.class_data_off as usize) == (match read {
                            Ok(item) => Ok::<(ClassDataView<F, M>, usize), DecodeError>(
                                (item@, cursor),
                            ),
                            Err(e) => Err::<(ClassDataView<F, M>, usize), DecodeError>(e),
                        })
                    };
                lookups = Lookups { class_data: trace, ..lookups };
            }
            match read {
                Ok(members) => members,
                Err(e) => {
                    assert(dex.admits(*class_def, lookups));
                    return Err(e);
                },
            }
        };

        let static_values = if class_def.class_data_off == 0 || class_def.static_values_off == 0 {
            Vec::new()
        } else {
            let found = (dex.decode_static_values)(class_def.static_values_off);
            proof {
                lookups = Lookups { static_values: found, ..lookups };
            }
            match found {
                Ok(values) => values,
                Err(e) => {
                    assert(dex.admits(*class_def, lookups));
                    return Err(e);
                },
            }
        };

        let annotations = if class_def.annotations_off == 0 {
            None
        } else {
            let found = (dex.decode_annotations)(class_def.annotations_off);
            proof {
                lookups = Lookups { annotations: found, ..lookups };
            }
            match found {
                Ok(annotations) => annotations,
                Err(e) => {
                    assert(dex.admits(*class_def, lookups));
                    return Err(e);
                },
            }
        };

        let super_class = resolve_super_class(class_def.superclass_idx);

        let interfaces = if class_def.interfaces_off == 0 {
            None
        } else {
            let found = (dex.decode_interfaces)(class_def.interfaces_off);
            proof {
                lookups = Lookups { interfaces: found, ..lookups };
            }
            match found {
                Ok(interfaces) => interfaces,
                Err(e) => {
                    assert(dex.admits(*class_def, lookups));
                    return Err(e);
                },
            }
        };

        let access_flags = match AccessFlags::from_bits(class_def.access_flags) {
            Some(flags) => flags,
            None => {
                assert(dex.admits(*class_def, lookups));
                return Err(invalid);
            },
        };

        let source_file = if class_def.source_file_idx == NO_INDEX {
            None
        } else {
            let found = (dex.resolve_string)(class_def.source_file_idx);
            proof {
                lookups = Lookups { source_file: found, ..lookups };
            }
            match found {
                Ok(source_file) => source_file,
                Err(e) => {
                    assert(dex.admits(*class_def, lookups));
                    return Err(e);
                },
            }
        };

        let class = Class {
            id: class_def.class_idx,
            jtype,
            access_flags,
            super_class,
            interfaces,
            annotations,
            source_file,
            static_fields: members.static_fields,
            instance_fields: members.instance_fields,
            direct_methods: members.direct_methods,
            virtual_methods: members.virtual_methods,
            static_values,
        };
        proof {
            assert(dex.admits(*class_def, lookups));
            assert(lookups.result(bytes, *class_def) == Ok::<
                ClassView<T, S, A, F, M, V>,
                DecodeError,
            >(class@));
        }
        Ok(class)
    }

    /// Index of the type of the class.
    pub fn id(&self) -> (r: ClassId)
        ensures
            r == self@.id,
    {
        self.id
    }

    /// The type of the class.
    pub fn jtype(&self) -> (r: &T)
        ensures
            *r == self@.jtype,
    {
        &self.jtype
    }

    /// The access flags of the class. They hold known flags only.
    pub fn access_flags(&self) -> (r: AccessFlags)
        ensures
            r.spec_bits() == self@.access_flags,
            self@.well_formed(),
    {
        let flags = self.access_flags;
        let _ = flags.bits();
        flags
    }

    /// Index of the type of the super class, if the class was given one.
    pub fn super_class(&self) -> (r: Option<ClassId>)
        ensures
            r == self@.super_class,
    {
        self.super_class
    }

    /// The interfaces that the class implements, if it has a list of them.
    pub fn interfaces(&self) -> (r: &Option<Vec<T>>)
        ensures
            match *r {
                Some(types) => self@.interfaces == Some(types@),
                None => self@.interfaces is None,
            },
    {
        &self.interfaces
    }

    /// The annotations of the class, of its fields, methods and parameters.
    pub fn annotations(&self) -> (r: &Option<A>)
        ensures
            *r == self@.annotations,
    {
        &self.annotations
    }

    /// The name of the file that the class stands in.
    pub fn source_file(&self) -> (r: &Option<S>)
        ensures
            *r == self@.source_file,
    {
        &self.source_file
    }

    /// The initial values of the static fields, in the order of the fields.
    pub fn static_values(&self) -> (r: &Vec<V>)
        ensures
            r@ == self@.static_values,
    {
        &self.static_values
    }

    /// The static fields of the class, in the order of the class data.
    pub fn static_fields(&self) -> (r: &Vec<F>)
        ensures
            r@ == self@.static_fields,
    {
        &self.static_fields
    }

    /// The instance fields of the class, in the order of the class data.
    pub fn instance_fields(&self) -> (r: &Vec<F>)
        ensures
            r@ == self@.instance_fields,
    {
        &self.instance_fields
    }

    /// The static and private methods and the constructors of the class, in
    /// the order of the class data.
    pub fn direct_methods(&self) -> (r: &Vec<M>)
        ensures
            r@ == self@.direct_methods,
    {
        &self.direct_methods
    }

    /// The methods of the parent class that the class overrides, in the
    /// order of the class data.
    pub fn virtual_methods(&self) -> (r: &Vec<M>)
        ensures
            r@ == self@.virtual_methods,
    {
        &self.virtual_methods
    }

    /// All fields of the class: the static fields in their order, then the
    /// instance fields in theirs. The fields are borrowed, not copied.
    pub fn fields(&self) -> (r: Vec<&F>)
        ensures
            r@.unref() == self@.fields(),
    {
        chain(&self.static_fields, &self.instance_fields)
    }

    /// All methods of the class: the direct methods in their order, then the
    /// virtual methods in theirs. The methods are borrowed, not copied.
    pub fn methods(&self) -> (r: Vec<&M>)
        ensures
            r@.unref() == self@.methods(),
    {
        chain(&self.direct_methods, &self.virtual_methods)
    }
}

/// References to the items of `first` in their order, then to those of
/// `second` in theirs.
fn chain<'a, X>(first: &'a Vec<X>, second: &'a Vec<X>) -> (all: Vec<&'a X>)
    ensures
        all@.unref() == first@ + second@,
{
    let mut all: Vec<&'a X> = Vec::new();
    let mut i: usize = 0;
    while i < first.len()
        invariant
            i <= first@.len(),
            all@.len() == i,
            forall|k: int| 0 <= k < i ==> *all@[k] == first@[k],
        decreases first@.len() - i,
    {
        all.push(&first[i]);
        i = i + 1;
    }
    let mut j: usize = 0;
    while j < second.len()
        invariant
            j <= second@.len(),
            all@.len() == first@.len() + j,
            forall|k: int| 0 <= k < first@.len() ==> *all@[k] == first@[k],
            forall|k: int| 0 <= k < j ==> *all@[first@.len() + k] == second@[k],
        decreases second@.len() - j,
    {
        all.push(&second[j]);
        j = j + 1;
    }
    assert(all@.unref() =~= first@ + second@);
    all
}

} // verus!
