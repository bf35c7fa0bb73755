//! Descriptors: a header and the records of columns or parameters.
//!
//! One record shape and one header shape serve every kind of descriptor;
//! `classify_field` says which of their fields a kind has, and which of those
//! an application may write.

use std::sync::Arc;

use vstd::prelude::*;

use crate::diag::{self, free_errors, post_sql_error, DiagRecord, SQLSTATE_HY000};
use crate::odbc_types::{
    SqlInteger, SqlLen, SqlPointer, SqlReturn, SqlSmallInt, SqlULen, SqlUSmallInt, SQL_BIGINT,
    SQL_BINARY, SQL_BIT, SQL_CA_SS_UDT_ASSEMBLY_TYPE_NAME, SQL_CA_SS_UDT_CATALOG_NAME,
    SQL_CA_SS_UDT_SCHEMA_NAME, SQL_CA_SS_UDT_TYPE_NAME, SQL_CHAR, SQL_C_DEFAULT, SQL_DATETIME,
    SQL_DECIMAL, SQL_DESC_ALLOC_AUTO, SQL_DESC_ALLOC_TYPE, SQL_DESC_ALLOC_USER,
    SQL_DESC_ARRAY_SIZE, SQL_DESC_ARRAY_STATUS_PTR, SQL_DESC_BIND_OFFSET_PTR, SQL_DESC_BIND_TYPE,
    SQL_DESC_CONCISE_TYPE, SQL_DESC_COUNT, SQL_DESC_DATA_PTR, SQL_DESC_DATETIME_INTERVAL_CODE,
    SQL_DESC_INDICATOR_PTR, SQL_DESC_LENGTH, SQL_DESC_NAME, SQL_DESC_NULLABLE,
    SQL_DESC_OCTET_LENGTH, SQL_DESC_OCTET_LENGTH_PTR, SQL_DESC_PARAMETER_TYPE, SQL_DESC_PRECISION,
    SQL_DESC_ROWS_PROCESSED_PTR, SQL_DESC_SCALE, SQL_DESC_TYPE, SQL_DESC_UNNAMED, SQL_DOUBLE,
    SQL_ERROR, SQL_FLOAT, SQL_GUID, SQL_INTEGER, SQL_LONGVARBINARY, SQL_LONGVARCHAR, SQL_NULLABLE,
    SQL_NUMERIC, SQL_PARAM_INPUT, SQL_REAL, SQL_ROWSET_SIZE_DEFAULT, SQL_SMALLINT, SQL_SS_TIME2,
    SQL_SS_TIMESTAMPOFFSET, SQL_SS_UDT, SQL_SUCCESS, SQL_TINYINT, SQL_TYPE_DATE, SQL_TYPE_TIME,
    SQL_TYPE_TIMESTAMP, SQL_VARBINARY, SQL_VARCHAR, SQL_WCHAR, SQL_WLONGVARCHAR, SQL_WVARCHAR,
};

verus! {

/// The role of a descriptor.
#[derive(Debug, Clone, Copy, PartialEq, Eq, Structural)]
pub enum DescKind {
    AppRow,
    AppParam,
    ImpRow,
    ImpParam,
    /// An explicitly allocated application descriptor. It may serve one
    /// statement for its rows and another for its parameters.
    Ad,
}

impl DescKind {
    /// Whether an application binds buffers through the descriptor.
    pub open spec fn spec_is_application(self) -> bool {
        self is AppRow || self is AppParam || self is Ad
    }

    /// Whether an application binds buffers through the descriptor.
    #[verifier::when_used_as_spec(spec_is_application)]
    pub fn is_application(self) -> (application: bool)
        ensures
            application == self.spec_is_application(),
    {
        match self {
            DescKind::AppRow | DescKind::AppParam | DescKind::Ad => true,
            _ => false,
        }
    }
}

/// The fields of a descriptor as a whole.
#[derive(Debug, Clone, Copy, PartialEq, Eq, Structural)]
pub struct DescHeader {
    pub alloc_type: SqlSmallInt,
    pub array_size: SqlULen,
    pub array_status_ptr: SqlPointer,
    pub bind_offset_ptr: SqlPointer,
    pub bind_type: SqlInteger,
    pub rows_processed_ptr: SqlPointer,
}

impl DescHeader {
    /// The header a descriptor starts with.
    pub open spec fn initial(alloc_type: SqlSmallInt) -> DescHeader {
        DescHeader {
            alloc_type,
            array_size: SQL_ROWSET_SIZE_DEFAULT,
            array_status_ptr: 0,
            bind_offset_ptr: 0,
            bind_type: 0,
            rows_processed_ptr: 0,
        }
    }
}

impl Default for DescHeader {
    /// The header of an implicit descriptor: one row, bound by column.
    fn default() -> (header: Self)
        ensures
            header == DescHeader::initial(SQL_DESC_ALLOC_AUTO),
    {
        DescHeader {
            alloc_type: SQL_DESC_ALLOC_AUTO,
            array_size: SQL_ROWSET_SIZE_DEFAULT,
            array_status_ptr: 0,
            bind_offset_ptr: 0,
            bind_type: 0,
            rows_processed_ptr: 0,
        }
    }
}

/// Which parts of a type's name the application has written itself. The others
/// are the server's to supply and to refresh.
#[derive(Debug, Clone, Copy, PartialEq, Eq, Structural)]
pub struct UdtNameClaims {
    pub catalog: bool,
    pub schema: bool,
    pub udt_type: bool,
}

impl Default for UdtNameClaims {
    /// Nothing is claimed.
    fn default() -> (claims: Self)
        ensures
            claims == (UdtNameClaims { catalog: false, schema: false, udt_type: false }),
    {
        UdtNameClaims { catalog: false, schema: false, udt_type: false }
    }
}

impl UdtNameClaims {
    /// Whether nothing is claimed.
    pub open spec fn spec_none(self) -> bool {
        !self.catalog && !self.schema && !self.udt_type
    }

    /// Whether nothing is claimed.
    pub fn none(&self) -> (none: bool)
        ensures
            none == self.spec_none(),
    {
        !self.catalog && !self.schema && !self.udt_type
    }
}

/// The name of a user-defined type. The assembly's name is kept and read back,
/// but is not sent to the server.
#[derive(Debug, Clone, PartialEq, Eq)]
pub struct UdtNames {
    pub catalog: String,
    pub schema: String,
    pub udt_type: String,
    pub assembly_type_name: String,
}

impl Default for UdtNames {
    /// Empty names.
    fn default() -> (names: Self)
        ensures
            names@ == (UdtNamesView {
                catalog: Seq::empty(),
                schema: Seq::empty(),
                udt_type: Seq::empty(),
                assembly_type_name: Seq::empty(),
            }),
    {
        UdtNames {
            catalog: String::new(),
            schema: String::new(),
            udt_type: String::new(),
            assembly_type_name: String::new(),
        }
    }
}

/// The name of a user-defined type, as a mathematical value.
#[verifier::ext_equal]
pub struct UdtNamesView {
    pub catalog: Seq<char>,
    pub schema: Seq<char>,
    pub udt_type: Seq<char>,
    pub assembly_type_name: Seq<char>,
}

impl View for UdtNames {
    type V = UdtNamesView;

    open spec fn view(&self) -> UdtNamesView {
        UdtNamesView {
            catalog: self.catalog@,
            schema: self.schema@,
            udt_type: self.udt_type@,
            assembly_type_name: self.assembly_type_name@,
        }
    }
}

/// What is left of a type's name once the server's parts of it are dropped.
pub open spec fn claimed_names(names: UdtNamesView, claims: UdtNameClaims) -> Option<UdtNamesView> {
    if claims.spec_none() && names.assembly_type_name.len() == 0 {
        None
    } else {
        Some(
            UdtNamesView {
                catalog: if claims.catalog {
                    names.catalog
                } else {
                    Seq::empty()
                },
                schema: if claims.schema {
                    names.schema
                } else {
                    Seq::empty()
                },
                udt_type: if claims.udt_type {
                    names.udt_type
                } else {
                    Seq::empty()
                },
                assembly_type_name: names.assembly_type_name,
            },
        )
    }
}

/// The text where `keep` holds, else none.
fn kept_text(text: &String, keep: bool) -> (kept: String)
    ensures
        kept@ == (if keep {
            text@
        } else {
            Seq::empty()
        }),
{
    if keep {
        text.clone()
    } else {
        String::new()
    }
}

/// What a parameter's declaration is made from. A prepared statement is stale
/// once it changes.
#[derive(Debug, Clone)]
pub struct ParameterDefinition {
    direction: SqlSmallInt,
    sql_type: SqlSmallInt,
    length: SqlULen,
    precision: SqlSmallInt,
    scale: SqlSmallInt,
    udt: Option<Arc<UdtNames>>,
}

/// What a parameter's declaration is made from, as a mathematical value: of a
/// user-defined type, the three parts of its name.
#[verifier::ext_equal]
pub struct DefinitionView {
    pub direction: SqlSmallInt,
    pub sql_type: SqlSmallInt,
    pub length: SqlULen,
    pub precision: SqlSmallInt,
    pub scale: SqlSmallInt,
    pub udt: Option<(Seq<char>, Seq<char>, Seq<char>)>,
}

/// The parts of a type's name that a declaration spells out.
pub open spec fn declared_name(names: UdtNamesView) -> (Seq<char>, Seq<char>, Seq<char>) {
    (names.catalog, names.schema, names.udt_type)
}

impl View for ParameterDefinition {
    type V = DefinitionView;

    closed spec fn view(&self) -> DefinitionView {
        DefinitionView {
            direction: self.direction,
            sql_type: self.sql_type,
            length: self.length,
            precision: self.precision,
            scale: self.scale,
            udt: match self.udt {
                Some(names) => Some(declared_name(names@)),
                None => None,
            },
        }
    }
}

impl ParameterDefinition {
    /// Whether two definitions give the same declaration.
    pub fn same_as(&self, other: &Self) -> (same: bool)
        ensures
            same == (self@ == other@),
    {
        if self.direction != other.direction || self.sql_type != other.sql_type || self.length
            != other.length || self.precision != other.precision || self.scale != other.scale {
            return false;
        }
        match (&self.udt, &other.udt) {
            (None, None) => true,
            (Some(a), Some(b)) => a.catalog == b.catalog && a.schema == b.schema && a.udt_type
                == b.udt_type,
            _ => false,
        }
    }
}

impl PartialEq for ParameterDefinition {
    fn eq(&self, other: &Self) -> (same: bool) {
        self.same_as(other)
    }
}

impl vstd::std_specs::cmp::PartialEqSpecImpl for ParameterDefinition {
    open spec fn obeys_eq_spec() -> bool {
        true
    }

    open spec fn eq_spec(&self, other: &Self) -> bool {
        self@ == other@
    }
}

impl Eq for ParameterDefinition {

}

/// One record of a descriptor: a column or a parameter.
#[derive(Debug, Clone)]
pub struct DescRecord {
    pub concise_type: SqlSmallInt,
    pub datetime_interval_code: SqlSmallInt,
    pub length: SqlULen,
    pub octet_length: SqlLen,
    pub precision: SqlSmallInt,
    pub scale: SqlSmallInt,
    pub nullable: SqlSmallInt,
    pub name: String,
    pub parameter_type: SqlSmallInt,
    pub data_ptr: SqlPointer,
    pub indicator_ptr: SqlPointer,
    pub octet_length_ptr: SqlPointer,
    /// Whether the application has bound a value. A data-at-execution token may
    /// be null, so the address does not tell.
    pub data_bound: bool,
    /// Whether the application itself wrote the precision or the scale.
    pub precision_scale_explicit: bool,
    /// Whether the application itself wrote the type or the size.
    pub explicitly_bound: bool,
    pub udt_names: Option<Arc<UdtNames>>,
    pub udt_name_claimed: UdtNameClaims,
}

/// Whether a type is declared with a length.
pub open spec fn declares_length(sql_type: SqlSmallInt) -> bool {
    ||| sql_type == SQL_CHAR
    ||| sql_type == SQL_VARCHAR
    ||| sql_type == SQL_LONGVARCHAR
    ||| sql_type == SQL_WCHAR
    ||| sql_type == SQL_WVARCHAR
    ||| sql_type == SQL_WLONGVARCHAR
    ||| sql_type == SQL_BINARY
    ||| sql_type == SQL_VARBINARY
    ||| sql_type == SQL_LONGVARBINARY
}

/// Whether a type is declared with a precision and a scale.
pub open spec fn declares_digits(sql_type: SqlSmallInt) -> bool {
    sql_type == SQL_NUMERIC || sql_type == SQL_DECIMAL
}

/// Whether a type is declared by its name alone. Times are: they are declared
/// with the largest scale whatever scale the application asks for.
pub open spec fn declares_nothing(sql_type: SqlSmallInt) -> bool {
    ||| sql_type == SQL_BIGINT
    ||| sql_type == SQL_BIT
    ||| sql_type == SQL_TINYINT
    ||| sql_type == SQL_SMALLINT
    ||| sql_type == SQL_INTEGER
    ||| sql_type == SQL_REAL
    ||| sql_type == SQL_FLOAT
    ||| sql_type == SQL_DOUBLE
    ||| sql_type == SQL_GUID
    ||| sql_type == SQL_TYPE_DATE
    ||| sql_type == SQL_TYPE_TIME
    ||| sql_type == SQL_TYPE_TIMESTAMP
    ||| sql_type == SQL_SS_TIME2
    ||| sql_type == SQL_SS_TIMESTAMPOFFSET
}

/// The verbose type of a type.
pub open spec fn verbose_of(concise_type: SqlSmallInt) -> SqlSmallInt {
    if concise_type == SQL_TYPE_TIME || concise_type == SQL_TYPE_TIMESTAMP {
        SQL_DATETIME
    } else {
        concise_type
    }
}

impl DescRecord {
    /// The name a user-defined type is declared with: none unless the record
    /// is of such a type and has a type name.
    pub open spec fn wire_name(self) -> Option<(Seq<char>, Seq<char>, Seq<char>)> {
        match self.udt_names {
            Some(names) => if self.concise_type == SQL_SS_UDT && names.udt_type@.len() != 0 {
                Some(declared_name(names@))
            } else {
                None
            },
            None => None,
        }
    }

    /// What the parameter's declaration is made from.
    pub open spec fn definition(self) -> DefinitionView {
        let sized = !declares_digits(self.concise_type) && !declares_nothing(self.concise_type);
        let digits = !declares_length(self.concise_type) && !declares_nothing(self.concise_type);
        DefinitionView {
            direction: self.parameter_type,
            sql_type: self.concise_type,
            length: if sized {
                self.length
            } else {
                0
            },
            precision: if digits {
                self.precision
            } else {
                0
            },
            scale: if digits {
                self.scale
            } else {
                0
            },
            udt: self.wire_name(),
        }
    }

    /// What the parameter's declaration is made from.
    pub fn parameter_definition(&self) -> (definition: ParameterDefinition)
        ensures
            definition@ == self.definition(),
    {
        let (length, precision, scale): (SqlULen, SqlSmallInt, SqlSmallInt) =
            match self.concise_type {
            SQL_CHAR | SQL_VARCHAR | SQL_LONGVARCHAR | SQL_WCHAR | SQL_WVARCHAR | SQL_WLONGVARCHAR
            | SQL_BINARY | SQL_VARBINARY | SQL_LONGVARBINARY => (self.length, 0, 0),
            SQL_NUMERIC | SQL_DECIMAL => (0, self.precision, self.scale),
            SQL_BIGINT | SQL_BIT | SQL_TINYINT | SQL_SMALLINT | SQL_INTEGER | SQL_REAL | SQL_FLOAT
            | SQL_DOUBLE | SQL_GUID | SQL_TYPE_DATE => (0, 0, 0),
            SQL_TYPE_TIME | SQL_TYPE_TIMESTAMP | SQL_SS_TIME2 | SQL_SS_TIMESTAMPOFFSET => (0, 0, 0),
            _ => (self.length, self.precision, self.scale),
        };
        let udt: Option<Arc<UdtNames>> = match &self.udt_names {
            Some(names) => if self.concise_type == SQL_SS_UDT && !names.udt_type.as_str().is_empty() {
                Some(names.clone())
            } else {
                None
            },
            None => None,
        };
        ParameterDefinition {
            direction: self.parameter_type,
            sql_type: self.concise_type,
            length,
            precision,
            scale,
            udt,
        }
    }

    /// Whether a record is as a descriptor of a kind first holds it.
    pub open spec fn is_default_for(self, kind: DescKind) -> bool {
        &&& self.concise_type == (if kind.spec_is_application() {
            SQL_C_DEFAULT
        } else {
            0
        })
        &&& self.parameter_type == (if kind is ImpParam {
            SQL_PARAM_INPUT
        } else {
            0
        })
        &&& self.nullable == (if kind is ImpParam {
            SQL_NULLABLE
        } else {
            0
        })
        &&& self.datetime_interval_code == 0
        &&& self.length == 0
        &&& self.octet_length == 0
        &&& self.precision == 0
        &&& self.scale == 0
        &&& self.name@.len() == 0
        &&& self.data_ptr == 0
        &&& self.indicator_ptr == 0
        &&& self.octet_length_ptr == 0
        &&& !self.data_bound
        &&& !self.precision_scale_explicit
        &&& !self.explicitly_bound
        &&& self.udt_names is None
        &&& self.udt_name_claimed.spec_none()
    }

    /// A record as a descriptor of a kind first holds it. One of a result's row
    /// is simply zeroed, as an unpopulated column is.
    pub fn default_for(kind: DescKind) -> (record: Self)
        ensures
            record.is_default_for(kind),
    {
        let (concise_type, parameter_type, nullable): (SqlSmallInt, SqlSmallInt, SqlSmallInt) =
            match kind {
            DescKind::AppRow | DescKind::AppParam | DescKind::Ad => (SQL_C_DEFAULT, 0, 0),
            DescKind::ImpParam => (0, SQL_PARAM_INPUT, SQL_NULLABLE),
            DescKind::ImpRow => (0, 0, 0),
        };
        DescRecord {
            concise_type,
            datetime_interval_code: 0,
            length: 0,
            octet_length: 0,
            precision: 0,
            scale: 0,
            nullable,
            name: String::new(),
            parameter_type,
            data_ptr: 0,
            indicator_ptr: 0,
            octet_length_ptr: 0,
            data_bound: false,
            precision_scale_explicit: false,
            explicitly_bound: false,
            udt_names: None,
            udt_name_claimed: UdtNameClaims::default(),
        }
    }

    /// The verbose type: times and timestamps are of the datetime family, any
    /// other type, dates too, is its own.
    pub fn verbose_type(&self) -> (verbose: SqlSmallInt)
        ensures
            verbose == verbose_of(self.concise_type),
    {
        match self.concise_type {
            SQL_TYPE_TIME | SQL_TYPE_TIMESTAMP => SQL_DATETIME,
            _ => self.concise_type,
        }
    }

    /// Whether `after` is `before` without the parts of a type's name that the
    /// server supplied.
    pub open spec fn names_cleared(before: Self, after: Self) -> bool {
        &&& match before.udt_names {
            Some(names) => match claimed_names(names@, before.udt_name_claimed) {
                Some(kept) => after.udt_names matches Some(left) && left@ == kept,
                None => after.udt_names is None,
            },
            None => after.udt_names is None,
        }
        &&& after == (DescRecord { udt_names: after.udt_names, ..before })
    }

    /// Drops the parts of a type's name that the server supplied.
    fn clear_auto_filled_names(&mut self)
        ensures
            DescRecord::names_cleared(*old(self), *final(self)),
    {
        let left: Option<Arc<UdtNames>> = match &self.udt_names {
            None => None,
            Some(names) => if self.udt_name_claimed.none()
                && names.assembly_type_name.as_str().is_empty() {
                None
            } else {
                Some(
                    Arc::new(
                        UdtNames {
                            catalog: kept_text(&names.catalog, self.udt_name_claimed.catalog),
                            schema: kept_text(&names.schema, self.udt_name_claimed.schema),
                            udt_type: kept_text(&names.udt_type, self.udt_name_claimed.udt_type),
                            assembly_type_name: names.assembly_type_name.clone(),
                        },
                    ),
                )
            },
        };
        self.udt_names = left;
    }
}

/// The state of a descriptor.
#[derive(Debug)]
pub struct DescState {
    pub diag_records: Vec<DiagRecord>,
    pub header: DescHeader,
    /// The records; the one at index 0 has number 1.
    pub records: Vec<DescRecord>,
}

impl DescState {
    /// Whether there is a record of this number.
    pub open spec fn has_record(self, record_number: SqlSmallInt) -> bool {
        1 <= record_number <= self.records@.len()
    }

    /// The index of a record.
    fn record_index(&self, record_number: SqlSmallInt) -> (index: Option<usize>)
        ensures
            match index {
                Some(index) => self.has_record(record_number) && index == record_number - 1,
                None => !self.has_record(record_number),
            },
    {
        if record_number < 1 {
            return None;
        }
        let index: usize = (record_number - 1) as usize;
        if index < self.records.len() {
            Some(index)
        } else {
            None
        }
    }

    /// The record of this number.
    pub fn record(&self, record_number: SqlSmallInt) -> (record: Option<&DescRecord>)
        ensures
            match record {
                Some(record) => self.has_record(record_number) && *record
                    == self.records@[record_number - 1],
                None => !self.has_record(record_number),
            },
    {
        match self.record_index(record_number) {
            Some(index) => Some(&self.records[index]),
            None => None,
        }
    }

    /// The record of this number, to be written.
    pub fn record_mut(&mut self, record_number: SqlSmallInt) -> (record: Option<&mut DescRecord>)
        ensures
            match record {
                Some(record) => {
                    &&& old(self).has_record(record_number)
                    &&& *record == old(self).records@[record_number - 1]
                    &&& final(self).records@ == old(self).records@.update(
                        record_number - 1,
                        *final(record),
                    )
                    &&& final(self).header == old(self).header
                    &&& final(self).diag_records == old(self).diag_records
                },
                None => !old(self).has_record(record_number) && *final(self) == *old(self),
            },
    {
        match self.record_index(record_number) {
            Some(index) => Some(&mut self.records[index]),
            None => None,
        }
    }

    /// Sets the number of records. Those that stay keep their content, those
    /// that come start with their defaults.
    pub fn set_record_count(&mut self, count: usize, kind: DescKind)
        ensures
            final(self).header == old(self).header,
            final(self).diag_records == old(self).diag_records,
            final(self).records@.len() == count,
            forall|k: int|
                0 <= k < count && k < old(self).records@.len() ==> #[trigger] final(self).records@[k] == old(self).records@[k],
            forall|k: int|
                old(self).records@.len() <= k < count ==> (#[trigger] final(self).records@[k]).is_default_for(kind),
    {
        if count < self.records.len() {
            self.records.truncate(count);
        } else {
            while self.records.len() < count
                invariant
                    self.header == old(self).header,
                    self.diag_records == old(self).diag_records,
                    old(self).records@.len() <= self.records@.len() <= count,
                    forall|k: int|
                        0 <= k < old(self).records@.len() ==> #[trigger] self.records@[k]
                            == old(self).records@[k],
                    forall|k: int|
                        old(self).records@.len() <= k < self.records@.len() ==> (
                        #[trigger] self.records@[k]).is_default_for(kind),
                decreases count - self.records.len(),
            {
                self.records.push(DescRecord::default_for(kind));
            }
        }
    }
}

/// What a parameter descriptor was before a write.
#[derive(Debug, Clone)]
pub struct DefinitionUpdate {
    pub record_number: SqlSmallInt,
    pub previous_count: usize,
    pub previous: Option<ParameterDefinition>,
}

/// The definition of the record of this number, where there is one.
pub open spec fn definition_at(state: DescState, record_number: SqlSmallInt) -> Option<
    DefinitionView,
> {
    if state.has_record(record_number) {
        Some(state.records@[record_number - 1].definition())
    } else {
        None
    }
}

/// The definition that was taken down.
pub open spec fn noted(definition: Option<ParameterDefinition>) -> Option<DefinitionView> {
    match definition {
        Some(definition) => Some(definition@),
        None => None,
    }
}

/// The number of the first parameter whose declaration differs from what was
/// taken down. A change in the number of records changes every parameter from
/// the first that came or went.
pub open spec fn first_changed(kind: DescKind, state: DescState, update: DefinitionUpdate) -> Option<
    usize,
> {
    if !(kind is ImpParam) {
        None
    } else if update.previous_count < state.records@.len() {
        Some((update.previous_count + 1) as usize)
    } else if update.previous_count > state.records@.len() {
        Some((state.records@.len() + 1) as usize)
    } else if noted(update.previous) != definition_at(state, update.record_number)
        && update.record_number >= 0 {
        Some(update.record_number as usize)
    } else {
        None
    }
}

/// A descriptor.
#[derive(Debug)]
pub struct DescHandle {
    pub kind: DescKind,
    pub alloc_type: SqlSmallInt,
    /// The connection it belongs to.
    pub parent_dbc: usize,
    pub state: DescState,
}

/// A statement, and the parameter descriptor it owns.
#[derive(Debug, Clone, Copy, PartialEq, Eq, Structural)]
pub struct StatementLink {
    pub stmt: usize,
    pub ipd: usize,
}

/// Whether the statement at `index` is the first that owns this descriptor.
pub open spec fn owned_at(statements: Seq<StatementLink>, ipd: usize, index: int) -> bool {
    &&& 0 <= index < statements.len()
    &&& statements[index].ipd == ipd
    &&& forall|k: int| 0 <= k < index ==> (#[trigger] statements[k]).ipd != ipd
}

/// The statement that owns a parameter descriptor, among those of a
/// connection.
pub fn owning_statement(statements: &[StatementLink], ipd: usize) -> (owner: Option<usize>)
    ensures
        match owner {
            Some(stmt) => exists|index: int| #[trigger]
                owned_at(statements@, ipd, index) && statements@[index].stmt == stmt,
            None => forall|k: int| 0 <= k < statements@.len() ==> (#[trigger] statements@[k]).ipd
                != ipd,
        },
{
    let mut index: usize = 0;
    while index < statements.len()
        invariant
            index <= statements@.len(),
            forall|k: int| 0 <= k < index ==> (#[trigger] statements@[k]).ipd != ipd,
        decreases statements.len() - index,
    {
        if statements[index].ipd == ipd {
            assert(owned_at(statements@, ipd, index as int));
            return Some(statements[index].stmt);
        }
        index = index + 1;
    }
    None
}

impl DescHandle {
    /// A descriptor without records.
    pub fn new(kind: DescKind, alloc_type: SqlSmallInt, parent_dbc: usize) -> (desc: Self)
        ensures
            desc.kind == kind,
            desc.alloc_type == alloc_type,
            desc.parent_dbc == parent_dbc,
            desc.state.header == DescHeader::initial(alloc_type),
            desc.state.records@.len() == 0,
            desc.state.diag_records@.len() == 0,
    {
        let header = DescHeader { alloc_type, ..DescHeader::default() };
        DescHandle {
            kind,
            alloc_type,
            parent_dbc,
            state: DescState { diag_records: Vec::new(), header, records: Vec::new() },
        }
    }

    /// Whether the application allocated the descriptor.
    pub fn is_explicit(&self) -> (explicit: bool)
        ensures
            explicit == (self.alloc_type == SQL_DESC_ALLOC_USER),
    {
        self.alloc_type == SQL_DESC_ALLOC_USER
    }

    /// Drops the parts of types' names that the server supplied. They belong
    /// to the text they were described from, so new text supersedes them. What
    /// the application wrote itself stays.
    pub fn clear_auto_filled_udt_names(&mut self) -> (rc: SqlReturn)
        ensures
            rc == SQL_SUCCESS,
            final(self).kind == old(self).kind,
            final(self).alloc_type == old(self).alloc_type,
            final(self).parent_dbc == old(self).parent_dbc,
            final(self).state.header == old(self).state.header,
            final(self).state.diag_records == old(self).state.diag_records,
            final(self).state.records@.len() == old(self).state.records@.len(),
            forall|k: int|
                0 <= k < old(self).state.records@.len() ==> DescRecord::names_cleared(
                    old(self).state.records@[k],
                    #[trigger] final(self).state.records@[k],
                ),
    {
        let mut index: usize = 0;
        while index < self.state.records.len()
            invariant
                self.kind == old(self).kind,
                self.alloc_type == old(self).alloc_type,
                self.parent_dbc == old(self).parent_dbc,
                self.state.header == old(self).state.header,
                self.state.diag_records == old(self).state.diag_records,
                index <= self.state.records@.len() == old(self).state.records@.len(),
                forall|k: int|
                    0 <= k < index ==> DescRecord::names_cleared(
                        old(self).state.records@[k],
                        #[trigger] self.state.records@[k],
                    ),
                forall|k: int|
                    index <= k < self.state.records@.len() ==> #[trigger] self.state.records@[k]
                        == old(self).state.records@[k],
            decreases self.state.records.len() - index,
        {
            self.state.records[index].clear_auto_filled_names();
            index = index + 1;
        }
        SQL_SUCCESS
    }

    /// Takes down what a write may change, and discards the diagnostics of the
    /// call before.
    pub fn begin_definition_update(&mut self, record_number: SqlSmallInt) -> (update:
        DefinitionUpdate)
        ensures
            update.record_number == record_number,
            update.previous_count == old(self).state.records@.len(),
            noted(update.previous) == (if old(self).kind is ImpParam {
                definition_at(old(self).state, record_number)
            } else {
                None
            }),
            final(self).state.diag_records@.len() == 0,
            *final(self) == (DescHandle {
                state: DescState {
                    diag_records: final(self).state.diag_records,
                    ..old(self).state
                },
                ..*old(self)
            }),
    {
        free_errors(&mut self.state.diag_records);
        let previous: Option<ParameterDefinition> = match self.kind {
            DescKind::ImpParam => match self.state.record(record_number) {
                Some(record) => Some(record.parameter_definition()),
                None => None,
            },
            _ => None,
        };
        DefinitionUpdate { record_number, previous_count: self.state.records.len(), previous }
    }

    /// The number of the first parameter whose declaration a write has
    /// changed. Only a parameter descriptor of the implementation declares
    /// anything.
    pub fn first_changed_definition(&self, update: &DefinitionUpdate) -> (first: Option<usize>)
        ensures
            first == first_changed(self.kind, self.state, *update),
    {
        match self.kind {
            DescKind::ImpParam => {},
            _ => {
                return None;
            },
        }
        let count: usize = self.state.records.len();
        if update.previous_count < count {
            return Some(update.previous_count + 1);
        }
        if update.previous_count > count {
            return Some(count + 1);
        }
        let same: bool = match (&update.previous, self.state.record(update.record_number)) {
            (None, None) => true,
            (Some(previous), Some(record)) => previous.same_as(&record.parameter_definition()),
            _ => false,
        };
        if !same && update.record_number >= 0 {
            Some(update.record_number as usize)
        } else {
            None
        }
    }

    /// What a write returns. Where it changed a declaration and the prepared
    /// statement that holds the old one could not be found or discarded, the
    /// write fails, whatever it returned itself.
    pub fn finish_definition_update(
        &mut self,
        rc: SqlReturn,
        first_changed: Option<usize>,
        invalidated: bool,
    ) -> (result: SqlReturn)
        ensures
            if first_changed is Some && !invalidated {
                &&& result == SQL_ERROR
                &&& diag::posted(
                    old(self).state.diag_records@,
                    final(self).state.diag_records@,
                    SQLSTATE_HY000,
                    0,
                    "Internal error invalidating prepared parameter definition"@,
                )
                &&& *final(self) == (DescHandle {
                    state: DescState {
                        diag_records: final(self).state.diag_records,
                        ..old(self).state
                    },
                    ..*old(self)
                })
            } else {
                &&& result == rc
                &&& *final(self) == *old(self)
            },
    {
        if first_changed.is_some() && !invalidated {
            post_sql_error(
                &mut self.state.diag_records,
                SQLSTATE_HY000,
                0,
                "Internal error invalidating prepared parameter definition",
            );
            return SQL_ERROR;
        }
        rc
    }

    /// Writes a descriptor. Where the write changes what parameters are
    /// declared with, whether or not it succeeds, the prepared statement that
    /// holds the old declaration is discarded from the first of them on;
    /// `invalidate` does that and says whether it could. It is called there
    /// only: a write that changes no declaration, or that goes to a descriptor
    /// of another kind, touches no statement.
    pub fn update_definition<
        U: FnOnce(DescState) -> (DescState, SqlReturn),
        I: FnOnce(usize) -> bool,
    >(&mut self, record_number: SqlSmallInt, update: U, invalidate: I) -> (rc: SqlReturn)
        requires
            forall|given: DescState|
                old(self).hands_out(given) ==> #[trigger] call_requires(update, (given,)),
            forall|given: DescState, written: (DescState, SqlReturn), first: usize|
                old(self).hands_out(given) && #[trigger] call_ensures(update, (given,), written)
                    && old(self).changed_by(record_number, written.0) == Some(first)
                    ==> #[trigger] call_requires(invalidate, (first,)),
        ensures
            exists|given: DescState, written: (DescState, SqlReturn), invalidated: bool|
                {
                    &&& old(self).hands_out(given)
                    &&& #[trigger] call_ensures(update, (given,), written)
                    &&& #[trigger] old(self).outcome(
                        *final(self),
                        rc,
                        record_number,
                        written,
                        invalidated,
                    )
                    &&& old(self).changed_by(record_number, written.0) matches Some(first)
                        ==> call_ensures(invalidate, (first,), invalidated)
                },
    {
        let noted_update: DefinitionUpdate = self.begin_definition_update(record_number);
        let mut given = DescState {
            diag_records: Vec::new(),
            header: DescHeader::default(),
            records: Vec::new(),
        };
        std::mem::swap(&mut self.state, &mut given);
        let ghost before = given;
        let (state, rc): (DescState, SqlReturn) = update(given);
        let ghost written = (state, rc);
        self.state = state;
        let first: Option<usize> = self.first_changed_definition(&noted_update);
        assert(call_ensures(update, (before,), written));
        assert(first == old(self).changed_by(record_number, written.0));
        let invalidated: bool = match first {
            Some(first) => invalidate(first),
            None => true,
        };
        let result: SqlReturn = self.finish_definition_update(rc, first, invalidated);
        assert(old(self).outcome(*self, result, record_number, written, invalidated));
        result
    }

    /// Whether a write starts from this state: the descriptor's own, without the
    /// records of earlier calls.
    pub open spec fn hands_out(self, given: DescState) -> bool {
        &&& given.diag_records@.len() == 0
        &&& given == (DescState { diag_records: given.diag_records, ..self.state })
    }

    /// The number of the first parameter that a write of this record, which
    /// leaves this state, changes.
    pub open spec fn changed_by(self, record_number: SqlSmallInt, written: DescState) -> Option<
        usize,
    > {
        if !(self.kind is ImpParam) {
            None
        } else if self.state.records@.len() < written.records@.len() {
            Some((self.state.records@.len() + 1) as usize)
        } else if self.state.records@.len() > written.records@.len() {
            Some((written.records@.len() + 1) as usize)
        } else if definition_at(self.state, record_number) != definition_at(written, record_number)
            && record_number >= 0 {
            Some(record_number as usize)
        } else {
            None
        }
    }

    /// What is left of a descriptor, and what is returned, after a write.
    pub open spec fn outcome(
        self,
        after: Self,
        rc: SqlReturn,
        record_number: SqlSmallInt,
        written: (DescState, SqlReturn),
        invalidated: bool,
    ) -> bool {
        if self.changed_by(record_number, written.0) is Some && !invalidated {
            &&& rc == SQL_ERROR
            &&& diag::posted(
                written.0.diag_records@,
                after.state.diag_records@,
                SQLSTATE_HY000,
                0,
                "Internal error invalidating prepared parameter definition"@,
            )
            &&& after == (DescHandle {
                state: DescState { diag_records: after.state.diag_records, ..written.0 },
                ..self
            })
        } else {
            &&& rc == written.1
            &&& after == (DescHandle { state: written.0, ..self })
        }
    }
}

/// Where a field's value stands.
#[derive(Debug, Clone, Copy, PartialEq, Eq, Structural)]
pub enum FieldScope {
    /// In the header; the record number is 0.
    Header,
    /// In a record; its number is 1 or more.
    Record,
}

/// What can be done with a field.
#[derive(Debug, Clone, Copy, PartialEq, Eq, Structural)]
pub struct FieldAccess {
    pub scope: FieldScope,
    pub writable: bool,
}

/// Whether a field is in the header of every kind of descriptor, or of one.
pub open spec fn is_header_field(field: SqlUSmallInt) -> bool {
    ||| field == SQL_DESC_ALLOC_TYPE
    ||| field == SQL_DESC_COUNT
    ||| field == SQL_DESC_ARRAY_SIZE
    ||| field == SQL_DESC_ARRAY_STATUS_PTR
    ||| field == SQL_DESC_BIND_OFFSET_PTR
    ||| field == SQL_DESC_BIND_TYPE
    ||| field == SQL_DESC_ROWS_PROCESSED_PTR
}

/// Whether a field describes the type of a column or parameter; every kind of
/// descriptor has these.
pub open spec fn is_type_field(field: SqlUSmallInt) -> bool {
    ||| field == SQL_DESC_TYPE
    ||| field == SQL_DESC_CONCISE_TYPE
    ||| field == SQL_DESC_DATETIME_INTERVAL_CODE
    ||| field == SQL_DESC_LENGTH
    ||| field == SQL_DESC_OCTET_LENGTH
    ||| field == SQL_DESC_PRECISION
    ||| field == SQL_DESC_SCALE
}

/// Whether a field is one of application descriptors only.
pub open spec fn is_application_field(field: SqlUSmallInt) -> bool {
    ||| field == SQL_DESC_ARRAY_SIZE
    ||| field == SQL_DESC_BIND_OFFSET_PTR
    ||| field == SQL_DESC_BIND_TYPE
    ||| field == SQL_DESC_DATA_PTR
    ||| field == SQL_DESC_INDICATOR_PTR
    ||| field == SQL_DESC_OCTET_LENGTH_PTR
}

/// Whether a field is one of implementation descriptors only.
pub open spec fn is_implementation_field(field: SqlUSmallInt) -> bool {
    ||| field == SQL_DESC_ROWS_PROCESSED_PTR
    ||| field == SQL_DESC_NULLABLE
    ||| field == SQL_DESC_NAME
    ||| field == SQL_DESC_UNNAMED
}

/// Whether a field is one of parameter descriptors of the implementation only.
pub open spec fn is_parameter_field(field: SqlUSmallInt) -> bool {
    ||| field == SQL_DESC_PARAMETER_TYPE
    ||| field == SQL_CA_SS_UDT_CATALOG_NAME
    ||| field == SQL_CA_SS_UDT_SCHEMA_NAME
    ||| field == SQL_CA_SS_UDT_TYPE_NAME
    ||| field == SQL_CA_SS_UDT_ASSEMBLY_TYPE_NAME
}

/// Whether a kind of descriptor has a field.
pub open spec fn has_field(kind: DescKind, field: SqlUSmallInt) -> bool {
    ||| field == SQL_DESC_ALLOC_TYPE
    ||| field == SQL_DESC_COUNT
    ||| field == SQL_DESC_ARRAY_STATUS_PTR
    ||| is_type_field(field)
    ||| is_application_field(field) && kind.spec_is_application()
    ||| is_implementation_field(field) && !kind.spec_is_application()
    ||| is_parameter_field(field) && kind is ImpParam
}

/// Whether an application may write a field that a kind of descriptor has. The
/// result set decides the row descriptor of the implementation, but for two
/// addresses in its header.
pub open spec fn may_write(kind: DescKind, field: SqlUSmallInt) -> bool {
    &&& field != SQL_DESC_ALLOC_TYPE
    &&& field != SQL_DESC_NULLABLE
    &&& kind is ImpRow ==> field == SQL_DESC_ARRAY_STATUS_PTR || field
        == SQL_DESC_ROWS_PROCESSED_PTR
}

/// Where a field stands in a kind of descriptor and whether it may be written;
/// `None` where the kind has no such field.
pub open spec fn access_of(kind: DescKind, field: SqlUSmallInt) -> Option<FieldAccess> {
    if has_field(kind, field) {
        Some(
            FieldAccess {
                scope: if is_header_field(field) {
                    FieldScope::Header
                } else {
                    FieldScope::Record
                },
                writable: may_write(kind, field),
            },
        )
    } else {
        None
    }
}

/// Says where a field stands in a kind of descriptor and whether it may be
/// written; `None` where the kind has no such field.
pub fn classify_field(kind: DescKind, field: SqlUSmallInt) -> (access: Option<FieldAccess>)
    ensures
        access == access_of(kind, field),
{
    let is_ad: bool = kind.is_application();
    let is_ird: bool = matches!(kind, DescKind::ImpRow);
    let is_ipd: bool = matches!(kind, DescKind::ImpParam);
    let (scope, writable): (FieldScope, bool) = match field {
        SQL_DESC_ALLOC_TYPE => (FieldScope::Header, false),
        SQL_DESC_COUNT => (FieldScope::Header, !is_ird),
        SQL_DESC_ARRAY_SIZE if is_ad => (FieldScope::Header, true),
        SQL_DESC_ARRAY_STATUS_PTR => (FieldScope::Header, true),
        SQL_DESC_BIND_OFFSET_PTR if is_ad => (FieldScope::Header, true),
        SQL_DESC_BIND_TYPE if is_ad => (FieldScope::Header, true),
        SQL_DESC_ROWS_PROCESSED_PTR if is_ird || is_ipd => (FieldScope::Header, true),
        SQL_DESC_TYPE
        | SQL_DESC_CONCISE_TYPE
        | SQL_DESC_DATETIME_INTERVAL_CODE
        | SQL_DESC_LENGTH
        | SQL_DESC_OCTET_LENGTH
        | SQL_DESC_PRECISION
        | SQL_DESC_SCALE => (FieldScope::Record, !is_ird),
        SQL_DESC_DATA_PTR | SQL_DESC_INDICATOR_PTR | SQL_DESC_OCTET_LENGTH_PTR => {
            if !is_ad {
                return None;
            }
            (FieldScope::Record, true)
        },
        SQL_DESC_NULLABLE if is_ird || is_ipd => (FieldScope::Record, false),
        SQL_DESC_NAME if is_ird || is_ipd => (FieldScope::Record, is_ipd),
        SQL_DESC_UNNAMED if is_ird || is_ipd => (FieldScope::Record, is_ipd),
        SQL_DESC_PARAMETER_TYPE if is_ipd => (FieldScope::Record, true),
        SQL_CA_SS_UDT_CATALOG_NAME
        | SQL_CA_SS_UDT_SCHEMA_NAME
        | SQL_CA_SS_UDT_TYPE_NAME
        | SQL_CA_SS_UDT_ASSEMBLY_TYPE_NAME => {
            if !is_ipd {
                return None;
            }
            (FieldScope::Record, true)
        },
        _ => {
            return None;
        },
    };
    Some(FieldAccess { scope, writable })
}

/// The assembly's name is no part of a declaration: rewriting it leaves every
/// prepared statement valid.
pub proof fn assembly_name_is_not_declared(before: DescRecord, after: DescRecord)
    requires
        after == (DescRecord { udt_names: after.udt_names, ..before }),
        before.udt_names matches Some(names) ==> after.udt_names is Some && declared_name(names@)
            == declared_name(after.udt_names->0@),
        before.udt_names is None ==> (after.udt_names matches Some(names) ==> names.udt_type@.len()
            == 0),
    ensures
        after.definition() == before.definition(),
{
}

/// A catalog or a schema without a type name declares nothing, and neither
/// does a name on a record of any other type.
pub proof fn only_a_named_type_is_declared(record: DescRecord)
    requires
        record.concise_type != SQL_SS_UDT || (record.udt_names matches Some(names)
            ==> names.udt_type@.len() == 0),
    ensures
        record.definition() == (DescRecord { udt_names: None, ..record }).definition(),
{
}

/// Clearing the server's names a second time changes nothing, and a part that
/// the application claimed survives.
pub proof fn claimed_names_survive(names: UdtNamesView, claims: UdtNameClaims)
    ensures
        claimed_names(names, claims) matches Some(kept) ==> claimed_names(kept, claims) == Some(
            kept,
        ),
        !claims.spec_none() ==> claimed_names(names, claims) is Some,
        claims.catalog ==> claimed_names(names, claims)->0.catalog == names.catalog,
        claims.schema ==> claimed_names(names, claims)->0.schema == names.schema,
        claims.udt_type ==> claimed_names(names, claims)->0.udt_type == names.udt_type,
        names.assembly_type_name.len() != 0 ==> (claimed_names(names, claims) matches Some(kept)
            && kept.assembly_type_name == names.assembly_type_name),
{
}

/// After the server's names are cleared, a type is declared only where the
/// application named it itself.
pub proof fn cleared_names_declare_what_is_claimed(before: DescRecord, after: DescRecord)
    requires
        DescRecord::names_cleared(before, after),
    ensures
        after.wire_name() is Some ==> before.udt_name_claimed.udt_type && before.wire_name()
            is Some,
        before.udt_name_claimed.udt_type ==> (after.wire_name() is Some <==> before.wire_name()
            is Some),
{
}

/// Whether a type is fixed: a number, a truth value, an identifier, a date or a
/// time, which is declared by its name alone.
pub open spec fn is_fixed(sql_type: SqlSmallInt) -> bool {
    seq![
        SQL_BIT,
        SQL_TINYINT,
        SQL_SMALLINT,
        SQL_INTEGER,
        SQL_BIGINT,
        SQL_REAL,
        SQL_FLOAT,
        SQL_DOUBLE,
        SQL_GUID,
        SQL_TYPE_DATE,
        SQL_TYPE_TIME,
        SQL_TYPE_TIMESTAMP,
        SQL_SS_TIME2,
        SQL_SS_TIMESTAMPOFFSET,
    ].contains(sql_type)
}

/// Whether a type is a text or a row of bytes.
pub open spec fn is_text_or_bytes(sql_type: SqlSmallInt) -> bool {
    seq![
        SQL_CHAR,
        SQL_VARCHAR,
        SQL_LONGVARCHAR,
        SQL_WCHAR,
        SQL_WVARCHAR,
        SQL_WLONGVARCHAR,
        SQL_BINARY,
        SQL_VARBINARY,
        SQL_LONGVARBINARY,
    ].contains(sql_type)
}

/// A type is in one of the lists of its family.
proof fn lemma_families(sql_type: SqlSmallInt)
    ensures
        is_fixed(sql_type) == declares_nothing(sql_type),
        is_text_or_bytes(sql_type) == declares_length(sql_type),
{
    let fixed = seq![
        SQL_BIT,
        SQL_TINYINT,
        SQL_SMALLINT,
        SQL_INTEGER,
        SQL_BIGINT,
        SQL_REAL,
        SQL_FLOAT,
        SQL_DOUBLE,
        SQL_GUID,
        SQL_TYPE_DATE,
        SQL_TYPE_TIME,
        SQL_TYPE_TIMESTAMP,
        SQL_SS_TIME2,
        SQL_SS_TIMESTAMPOFFSET,
    ];
    let sized = seq![
        SQL_CHAR,
        SQL_VARCHAR,
        SQL_LONGVARCHAR,
        SQL_WCHAR,
        SQL_WVARCHAR,
        SQL_WLONGVARCHAR,
        SQL_BINARY,
        SQL_VARBINARY,
        SQL_LONGVARBINARY,
    ];
    assert(fixed[0] == SQL_BIT && fixed[1] == SQL_TINYINT && fixed[2] == SQL_SMALLINT && fixed[3]
        == SQL_INTEGER && fixed[4] == SQL_BIGINT && fixed[5] == SQL_REAL && fixed[6] == SQL_FLOAT
        && fixed[7] == SQL_DOUBLE && fixed[8] == SQL_GUID && fixed[9] == SQL_TYPE_DATE && fixed[10]
        == SQL_TYPE_TIME && fixed[11] == SQL_TYPE_TIMESTAMP && fixed[12] == SQL_SS_TIME2
        && fixed[13] == SQL_SS_TIMESTAMPOFFSET);
    assert(sized[0] == SQL_CHAR && sized[1] == SQL_VARCHAR && sized[2] == SQL_LONGVARCHAR
        && sized[3] == SQL_WCHAR && sized[4] == SQL_WVARCHAR && sized[5] == SQL_WLONGVARCHAR
        && sized[6] == SQL_BINARY && sized[7] == SQL_VARBINARY && sized[8] == SQL_LONGVARBINARY);
    assert(fixed.len() == 14 && sized.len() == 9);
}

/// Two definitions are equal exactly if the declarations are: they have one type
/// and one direction; one length, unless the type is fixed or a decimal; one
/// precision and one scale, unless the type is fixed, a text or a row of bytes;
/// and of a user-defined type one name, as far as it has one.
pub proof fn definitions_are_equal_as_declarations_are(a: DescRecord, b: DescRecord)
    ensures
        a.definition() == b.definition() <==> {
            &&& a.concise_type == b.concise_type
            &&& a.parameter_type == b.parameter_type
            &&& a.concise_type == SQL_CHAR || a.concise_type == SQL_VARCHAR || a.concise_type
                == SQL_LONGVARCHAR ==> a.length == b.length
            &&& a.concise_type == SQL_WCHAR || a.concise_type == SQL_WVARCHAR || a.concise_type
                == SQL_WLONGVARCHAR ==> a.length == b.length
            &&& a.concise_type == SQL_BINARY || a.concise_type == SQL_VARBINARY || a.concise_type
                == SQL_LONGVARBINARY ==> a.length == b.length
            &&& a.concise_type == SQL_DECIMAL || a.concise_type == SQL_NUMERIC ==> a.precision
                == b.precision && a.scale == b.scale
            &&& is_fixed(a.concise_type) || is_text_or_bytes(a.concise_type) || a.concise_type
                == SQL_DECIMAL || a.concise_type == SQL_NUMERIC || (a.length == b.length
                && a.precision == b.precision && a.scale == b.scale)
            &&& a.concise_type == SQL_SS_UDT ==> same_type_name(a.udt_names, b.udt_names)
        },
{
    lemma_families(a.concise_type);
}

/// Whether two names of user-defined types are declared alike: both without a
/// type name, or with one catalog, one schema and one type name.
pub open spec fn same_type_name(a: Option<Arc<UdtNames>>, b: Option<Arc<UdtNames>>) -> bool {
    let a_named = a is Some && a->0.udt_type@.len() > 0;
    let b_named = b is Some && b->0.udt_type@.len() > 0;
    &&& a_named == b_named
    &&& a_named ==> a->0.catalog@ == b->0.catalog@ && a->0.schema@ == b->0.schema@
        && a->0.udt_type@ == b->0.udt_type@
}

/// A write to a parameter descriptor of the implementation that changes a
/// declaration is reported with the number of the first parameter it changed, and
/// one that changes none is not: where the number of records stays, this is the
/// written record; where it does not, the first that came or went.
pub proof fn a_changed_declaration_is_reported(
    desc: DescHandle,
    record_number: SqlSmallInt,
    written: DescState,
)
    requires
        desc.kind is ImpParam,
    ensures
        ({
            let had = desc.state.records@.len();
            let has = written.records@.len();
            let changed = desc.changed_by(record_number, written);
            &&& had < has ==> changed == Some((had + 1) as usize)
            &&& has < had ==> changed == Some((has + 1) as usize)
            &&& had == has && 1 <= record_number <= had ==> (changed is Some
                <==> desc.state.records@[record_number - 1].definition()
                != written.records@[record_number - 1].definition())
            &&& had == has && !(1 <= record_number <= had) ==> changed is None
            &&& had == has && changed is Some ==> changed == Some(record_number as usize)
        }),
{
}

/// A write to a descriptor of another kind changes no declaration.
pub proof fn other_descriptors_declare_nothing(
    desc: DescHandle,
    record_number: SqlSmallInt,
    written: DescState,
    update: DefinitionUpdate,
)
    requires
        !(desc.kind is ImpParam),
    ensures
        desc.changed_by(record_number, written) is None,
        first_changed(desc.kind, written, update) is None,
{
}

/// What was taken down before a write tells what it changed: comparing it with
/// what the write left gives what the write is reported with.
pub proof fn what_was_taken_down_tells_the_change(
    desc: DescHandle,
    record_number: SqlSmallInt,
    written: DescState,
    update: DefinitionUpdate,
)
    requires
        update.record_number == record_number,
        update.previous_count == desc.state.records@.len(),
        noted(update.previous) == (if desc.kind is ImpParam {
            definition_at(desc.state, record_number)
        } else {
            None
        }),
    ensures
        first_changed(desc.kind, written, update) == desc.changed_by(record_number, written),
{
}

/// A write that changes no declaration returns what it returned, and so does one
/// whose statement was discarded; a write whose statement was not is an error. In
/// each case what it wrote stays.
pub proof fn a_write_fails_only_with_a_stale_statement(
    desc: DescHandle,
    after: DescHandle,
    rc: SqlReturn,
    record_number: SqlSmallInt,
    written: (DescState, SqlReturn),
    invalidated: bool,
)
    requires
        desc.outcome(after, rc, record_number, written, invalidated),
    ensures
        after.state.records == written.0.records,
        after.state.header == written.0.header,
        after.kind == desc.kind,
        after.alloc_type == desc.alloc_type,
        after.parent_dbc == desc.parent_dbc,
        invalidated || desc.changed_by(record_number, written.0) is None ==> rc == written.1
            && after.state == written.0,
        !invalidated && desc.changed_by(record_number, written.0) is Some ==> rc == SQL_ERROR
            && after.state.diag_records@.len() == written.0.diag_records@.len() + 1,
{
}

/// Times and timestamps share the datetime family; every other type, dates too,
/// is a family of its own.
pub proof fn times_and_timestamps_are_of_the_datetime_family(sql_type: SqlSmallInt)
    ensures
        verbose_of(SQL_TYPE_TIME) == SQL_DATETIME,
        verbose_of(SQL_TYPE_TIMESTAMP) == SQL_DATETIME,
        verbose_of(SQL_TYPE_DATE) == SQL_TYPE_DATE,
        sql_type != SQL_TYPE_TIME && sql_type != SQL_TYPE_TIMESTAMP ==> verbose_of(sql_type)
            == sql_type,
{
}

/// The access to a field that may be written.
pub open spec fn written_in(scope: FieldScope) -> Option<FieldAccess> {
    Some(FieldAccess { scope, writable: true })
}

/// The access to a field that may only be read.
pub open spec fn read_in(scope: FieldScope) -> Option<FieldAccess> {
    Some(FieldAccess { scope, writable: false })
}

/// The fields of an application descriptor, which are the same for its three
/// kinds: all may be written but the way it was allocated.
pub proof fn fields_of_application_descriptors(kind: DescKind)
    requires
        kind is AppRow || kind is AppParam || kind is Ad,
    ensures
        access_of(kind, SQL_DESC_ALLOC_TYPE) == read_in(FieldScope::Header),
        access_of(kind, SQL_DESC_COUNT) == written_in(FieldScope::Header),
        access_of(kind, SQL_DESC_ARRAY_SIZE) == written_in(FieldScope::Header),
        access_of(kind, SQL_DESC_ARRAY_STATUS_PTR) == written_in(FieldScope::Header),
        access_of(kind, SQL_DESC_BIND_OFFSET_PTR) == written_in(FieldScope::Header),
        access_of(kind, SQL_DESC_BIND_TYPE) == written_in(FieldScope::Header),
        access_of(kind, SQL_DESC_ROWS_PROCESSED_PTR) is None,
        access_of(kind, SQL_DESC_TYPE) == written_in(FieldScope::Record),
        access_of(kind, SQL_DESC_CONCISE_TYPE) == written_in(FieldScope::Record),
        access_of(kind, SQL_DESC_DATETIME_INTERVAL_CODE) == written_in(FieldScope::Record),
        access_of(kind, SQL_DESC_LENGTH) == written_in(FieldScope::Record),
        access_of(kind, SQL_DESC_OCTET_LENGTH) == written_in(FieldScope::Record),
        access_of(kind, SQL_DESC_PRECISION) == written_in(FieldScope::Record),
        access_of(kind, SQL_DESC_SCALE) == written_in(FieldScope::Record),
        access_of(kind, SQL_DESC_DATA_PTR) == written_in(FieldScope::Record),
        access_of(kind, SQL_DESC_INDICATOR_PTR) == written_in(FieldScope::Record),
        access_of(kind, SQL_DESC_OCTET_LENGTH_PTR) == written_in(FieldScope::Record),
        access_of(kind, SQL_DESC_NULLABLE) is None,
        access_of(kind, SQL_DESC_NAME) is None,
        access_of(kind, SQL_DESC_UNNAMED) is None,
        access_of(kind, SQL_DESC_PARAMETER_TYPE) is None,
        access_of(kind, SQL_CA_SS_UDT_CATALOG_NAME) is None,
        access_of(kind, SQL_CA_SS_UDT_SCHEMA_NAME) is None,
        access_of(kind, SQL_CA_SS_UDT_TYPE_NAME) is None,
        access_of(kind, SQL_CA_SS_UDT_ASSEMBLY_TYPE_NAME) is None,
{
}

/// The fields of the row descriptor of the implementation: the result set fills
/// it, and the application may write two addresses of its header only.
pub proof fn fields_of_the_row_descriptor_of_the_implementation(field: SqlUSmallInt)
    ensures
        access_of(DescKind::ImpRow, field) matches Some(access) && access.writable ==> field
            == SQL_DESC_ARRAY_STATUS_PTR || field == SQL_DESC_ROWS_PROCESSED_PTR,
        access_of(DescKind::ImpRow, SQL_DESC_ALLOC_TYPE) == read_in(FieldScope::Header),
        access_of(DescKind::ImpRow, SQL_DESC_COUNT) == read_in(FieldScope::Header),
        access_of(DescKind::ImpRow, SQL_DESC_ARRAY_STATUS_PTR) == written_in(FieldScope::Header),
        access_of(DescKind::ImpRow, SQL_DESC_ROWS_PROCESSED_PTR) == written_in(FieldScope::Header),
        access_of(DescKind::ImpRow, SQL_DESC_ARRAY_SIZE) is None,
        access_of(DescKind::ImpRow, SQL_DESC_BIND_OFFSET_PTR) is None,
        access_of(DescKind::ImpRow, SQL_DESC_BIND_TYPE) is None,
        access_of(DescKind::ImpRow, SQL_DESC_TYPE) == read_in(FieldScope::Record),
        access_of(DescKind::ImpRow, SQL_DESC_CONCISE_TYPE) == read_in(FieldScope::Record),
        access_of(DescKind::ImpRow, SQL_DESC_DATETIME_INTERVAL_CODE) == read_in(FieldScope::Record),
        access_of(DescKind::ImpRow, SQL_DESC_LENGTH) == read_in(FieldScope::Record),
        access_of(DescKind::ImpRow, SQL_DESC_OCTET_LENGTH) == read_in(FieldScope::Record),
        access_of(DescKind::ImpRow, SQL_DESC_PRECISION) == read_in(FieldScope::Record),
        access_of(DescKind::ImpRow, SQL_DESC_SCALE) == read_in(FieldScope::Record),
        access_of(DescKind::ImpRow, SQL_DESC_NULLABLE) == read_in(FieldScope::Record),
        access_of(DescKind::ImpRow, SQL_DESC_NAME) == read_in(FieldScope::Record),
        access_of(DescKind::ImpRow, SQL_DESC_UNNAMED) == read_in(FieldScope::Record),
        access_of(DescKind::ImpRow, SQL_DESC_DATA_PTR) is None,
        access_of(DescKind::ImpRow, SQL_DESC_INDICATOR_PTR) is None,
        access_of(DescKind::ImpRow, SQL_DESC_OCTET_LENGTH_PTR) is None,
        access_of(DescKind::ImpRow, SQL_DESC_PARAMETER_TYPE) is None,
        access_of(DescKind::ImpRow, SQL_CA_SS_UDT_CATALOG_NAME) is None,
        access_of(DescKind::ImpRow, SQL_CA_SS_UDT_SCHEMA_NAME) is None,
        access_of(DescKind::ImpRow, SQL_CA_SS_UDT_TYPE_NAME) is None,
        access_of(DescKind::ImpRow, SQL_CA_SS_UDT_ASSEMBLY_TYPE_NAME) is None,
{
}

/// The fields of the parameter descriptor of the implementation: the application
/// may write all but the way it was allocated and whether nulls are allowed. It
/// has no addresses of values.
pub proof fn fields_of_the_parameter_descriptor_of_the_implementation(field: SqlUSmallInt)
    ensures
        access_of(DescKind::ImpParam, field) matches Some(access) && !access.writable ==> field
            == SQL_DESC_ALLOC_TYPE || field == SQL_DESC_NULLABLE,
        access_of(DescKind::ImpParam, SQL_DESC_ALLOC_TYPE) == read_in(FieldScope::Header),
        access_of(DescKind::ImpParam, SQL_DESC_COUNT) == written_in(FieldScope::Header),
        access_of(DescKind::ImpParam, SQL_DESC_ARRAY_STATUS_PTR) == written_in(FieldScope::Header),
        access_of(DescKind::ImpParam, SQL_DESC_ROWS_PROCESSED_PTR) == written_in(
            FieldScope::Header,
        ),
        access_of(DescKind::ImpParam, SQL_DESC_ARRAY_SIZE) is None,
        access_of(DescKind::ImpParam, SQL_DESC_BIND_OFFSET_PTR) is None,
        access_of(DescKind::ImpParam, SQL_DESC_BIND_TYPE) is None,
        access_of(DescKind::ImpParam, SQL_DESC_TYPE) == written_in(FieldScope::Record),
        access_of(DescKind::ImpParam, SQL_DESC_CONCISE_TYPE) == written_in(FieldScope::Record),
        access_of(DescKind::ImpParam, SQL_DESC_DATETIME_INTERVAL_CODE) == written_in(
            FieldScope::Record,
        ),
        access_of(DescKind::ImpParam, SQL_DESC_LENGTH) == written_in(FieldScope::Record),
        access_of(DescKind::ImpParam, SQL_DESC_OCTET_LENGTH) == written_in(FieldScope::Record),
        access_of(DescKind::ImpParam, SQL_DESC_PRECISION) == written_in(FieldScope::Record),
        access_of(DescKind::ImpParam, SQL_DESC_SCALE) == written_in(FieldScope::Record),
        access_of(DescKind::ImpParam, SQL_DESC_NULLABLE) == read_in(FieldScope::Record),
        access_of(DescKind::ImpParam, SQL_DESC_NAME) == written_in(FieldScope::Record),
        access_of(DescKind::ImpParam, SQL_DESC_UNNAMED) == written_in(FieldScope::Record),
        access_of(DescKind::ImpParam, SQL_DESC_PARAMETER_TYPE) == written_in(FieldScope::Record),
        access_of(DescKind::ImpParam, SQL_CA_SS_UDT_CATALOG_NAME) == written_in(FieldScope::Record),
        access_of(DescKind::ImpParam, SQL_CA_SS_UDT_SCHEMA_NAME) == written_in(FieldScope::Record),
        access_of(DescKind::ImpParam, SQL_CA_SS_UDT_TYPE_NAME) == written_in(FieldScope::Record),
        access_of(DescKind::ImpParam, SQL_CA_SS_UDT_ASSEMBLY_TYPE_NAME) == written_in(
            FieldScope::Record,
        ),
        access_of(DescKind::ImpParam, SQL_DESC_DATA_PTR) is None,
        access_of(DescKind::ImpParam, SQL_DESC_INDICATOR_PTR) is None,
        access_of(DescKind::ImpParam, SQL_DESC_OCTET_LENGTH_PTR) is None,
{
}

/// Where a field stands does not depend on the kind of descriptor that has it.
pub proof fn a_field_stands_in_one_place(a: DescKind, b: DescKind, field: SqlUSmallInt)
    ensures
        access_of(a, field) is Some && access_of(b, field) is Some ==> access_of(a, field)->0.scope
            == access_of(b, field)->0.scope,
{
}

/// Clearing the server's names keeps what is claimed, drops the rest, and touches
/// nothing else of a record.
pub proof fn what_is_not_claimed_is_dropped(names: UdtNamesView, claims: UdtNameClaims)
    ensures
        claimed_names(names, claims) matches Some(kept) ==> {
            &&& kept.catalog.len() > 0 ==> claims.catalog
            &&& kept.schema.len() > 0 ==> claims.schema
            &&& kept.udt_type.len() > 0 ==> claims.udt_type
            &&& kept.assembly_type_name == names.assembly_type_name
        },
        claimed_names(names, claims) is None <==> !claims.catalog && !claims.schema
            && !claims.udt_type && names.assembly_type_name.len() == 0,
{
}

/// A new record of an application descriptor takes the default type of its
/// buffers, one of a parameter is an input and may be null, and one of a result's
/// row says nothing.
pub proof fn records_start_as_their_kind_has_them(record: DescRecord, kind: DescKind)
    requires
        record.is_default_for(kind),
    ensures
        kind is AppRow || kind is AppParam || kind is Ad ==> record.concise_type == SQL_C_DEFAULT
            && record.parameter_type == 0 && record.nullable == 0,
        kind is ImpParam ==> record.concise_type == 0 && record.parameter_type == SQL_PARAM_INPUT
            && record.nullable == SQL_NULLABLE,
        kind is ImpRow ==> record.concise_type == 0 && record.parameter_type == 0
            && record.nullable == 0,
        record.length == 0 && record.octet_length == 0 && record.precision == 0 && record.scale
            == 0,
        record.data_ptr == 0 && record.indicator_ptr == 0 && record.octet_length_ptr == 0,
        !record.data_bound && !record.explicitly_bound && !record.precision_scale_explicit,
        record.name@.len() == 0 && record.udt_names is None && record.datetime_interval_code == 0,
        !record.udt_name_claimed.catalog && !record.udt_name_claimed.schema
            && !record.udt_name_claimed.udt_type,
{
}

/// A descriptor starts with one row, bound by column, and without any address.
pub proof fn a_descriptor_starts_with_one_row(alloc_type: SqlSmallInt)
    ensures
        DescHeader::initial(alloc_type).alloc_type == alloc_type,
        DescHeader::initial(alloc_type).array_size == 1,
        DescHeader::initial(alloc_type).bind_type == 0,
        DescHeader::initial(alloc_type).array_status_ptr == 0,
        DescHeader::initial(alloc_type).bind_offset_ptr == 0,
        DescHeader::initial(alloc_type).rows_processed_ptr == 0,
{
}

/// A write starts from the descriptor's own header and records, without the diagnostics
/// of earlier calls.
pub proof fn a_write_starts_from_the_descriptor(desc: DescHandle, given: DescState)
    requires
        desc.hands_out(given),
    ensures
        given.diag_records@.len() == 0,
        given.header == desc.state.header,
        given.records == desc.state.records,
{
}

/// A descriptor is owned by one statement: the first that has it.
pub proof fn a_descriptor_has_one_owner(
    statements: Seq<StatementLink>,
    ipd: usize,
    a: int,
    b: int,
)
    requires
        owned_at(statements, ipd, a),
        owned_at(statements, ipd, b),
    ensures
        a == b,
        statements[a].ipd == ipd,
{
    if a < b {
        assert(statements[a].ipd != ipd);
    } else if b < a {
        assert(statements[b].ipd != ipd);
    }
}

} // verus!
