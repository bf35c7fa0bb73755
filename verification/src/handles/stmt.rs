//! Statements: their state, their bindings and their implicit descriptors.

use std::collections::VecDeque;

use vstd::prelude::*;

use super::active_plp::ActivePlpStream;
use super::dae_state::{DaeState, PreparedPlan, StatementId};
use super::desc::{self, DescHandle, DescKind};
use super::stmt_attrs::{self, InertStmtAttrs, VendorStmtAttrs};
use crate::conversion::chars::chars_of;
use crate::conversion::column_value::{ColumnValues, TdsDataType};
use crate::conversion::param_buffer::BoundParam;
use crate::conversion::unicode::{self, encode_units};
use crate::diag::DiagRecord;
use crate::fetch_engine::plp_stream::PlpEncoding;
use crate::odbc_types::{
    SqlInteger, SqlLen, SqlPointer, SqlSmallInt, SqlULen, SqlUSmallInt, SQL_BIND_BY_COLUMN,
    SQL_DESC_ALLOC_AUTO,
};

verus! {

pub const STMT_STATE_EXEC_STARTED: u32 = 0x0000_0100;

pub const STMT_STATE_PREPARED: u32 = 0x0000_0200;

pub const STMT_STATE_CURSOR_OPEN: u32 = 0x0000_0800;

pub const STMT_STATE_EXEC_CONTEXT: u32 = 0x0000_1000;

/// A block fetch is writing through the bindings, which must not change.
pub const STMT_STATE_FETCH_IN_PROGRESS: u32 = 0x0000_2000;

/// A column of a result, as far as it is read here.
#[derive(Debug, Clone)]
pub struct ColumnMetadata {
    pub column_name: String,
    /// Whether its values come in chunks.
    pub plp: bool,
    pub plp_encoding: Option<PlpEncoding>,
}

/// A row that was read whole, for the calls that ask for its columns.
#[derive(Debug)]
pub struct BufferedGetDataRow {
    pub values: Vec<Option<ColumnValues>>,
    pub variant_bases: Vec<Option<TdsDataType>>,
    /// The leading values that were delivered or passed over.
    pub consumed: usize,
    /// Whether columns behind these are still on the wire.
    pub wire_deferred: bool,
}

/// A buffer bound to a column.
#[derive(Debug, Clone, Copy, PartialEq, Eq, Structural)]
pub struct ColumnBinding {
    /// The column, counted from 1.
    pub column_number: SqlUSmallInt,
    pub target_type: SqlSmallInt,
    pub target_value_ptr: SqlPointer,
    pub buffer_length: SqlLen,
    pub strlen_or_ind_ptr: SqlPointer,
}

/// What the server says of a parameter.
#[derive(Debug, Clone, Copy, PartialEq, Eq, Structural)]
pub struct ParameterDescription {
    pub data_type: SqlSmallInt,
    pub parameter_size: SqlULen,
    pub decimal_digits: SqlSmallInt,
    pub nullable: SqlSmallInt,
}

/// The state of a statement. `C` is the connection's client, `D` the decoder
/// of a code page.
#[derive(Debug)]
pub struct StmtState<C, D> {
    pub diag_records: Vec<DiagRecord>,
    pub column_metadata: Vec<ColumnMetadata>,
    /// The names of the columns in UTF-16.
    pub column_names_utf16: Vec<Vec<u16>>,
    /// The encodings of the columns, where any comes in chunks.
    pub plp_encodings: Option<Vec<Option<PlpEncoding>>>,
    pub plp_prefetch_scratch: Vec<u8>,
    /// Whether the current result is known to have no further row.
    pub result_set_exhausted: bool,
    /// Whether nothing is left of the whole batch.
    pub batch_exhausted: bool,
    /// An error that was found behind a row already delivered.
    pub pending_fetch_error: Option<DiagRecord>,
    pub pending_fetch_info: Vec<DiagRecord>,
    pub prepared: Option<PreparedPlan>,
    pub parameter_metadata: Vec<ParameterDescription>,
    /// The bound parameters by number; a gap is left by binding a higher
    /// number first.
    pub bound_params: Vec<Option<BoundParam>>,
    /// A handle that the server is to release at the next execution.
    pub pending_unprepare: Option<StatementId>,
    pub row_positioned: bool,
    pub last_captured: Option<(usize, ColumnValues)>,
    pub buffered_get_data_row: Option<BufferedGetDataRow>,
    pub spare_get_data_row: Option<BufferedGetDataRow>,
    pub last_variant_base: Option<(usize, TdsDataType)>,
    pub row_exhausted: bool,
    pub active_plp: Option<ActivePlpStream<D>>,
    pub current_row_last_col: usize,
    pub partial_text_offset: Option<(usize, usize)>,
    pub direct_text_target: Option<(usize, SqlSmallInt)>,
    /// The rows affected, or -1 where that is not known.
    pub row_count: i64,
    pub pending_row_counts: VecDeque<i64>,
    pub row_array_size: SqlULen,
    pub rows_fetched_ptr: SqlPointer,
    pub row_status_ptr: SqlPointer,
    pub row_bind_type: SqlULen,
    pub row_bind_offset_ptr: SqlPointer,
    /// The bound columns, in the order of their numbers.
    pub bindings: Vec<ColumnBinding>,
    /// An explicit descriptor in place of the implicit one.
    pub active_ard: Option<usize>,
    pub active_apd: Option<usize>,
    pub state_flags: u32,
    /// The sequence that supplies values at execution, while it lasts.
    pub dae: Option<DaeState<C>>,
    pub query_timeout: u32,
    /// The most rows of a result; 0 for all.
    pub max_rows: SqlULen,
    /// The rows of the current result that were delivered.
    pub rows_returned: SqlULen,
    pub inert_attrs: InertStmtAttrs,
    pub vendor_attrs: VendorStmtAttrs,
    pub qn_msgtext: String,
    pub qn_options: String,
    /// The number of the current command in its batch; 0 before the first.
    pub current_command: SqlULen,
}

/// Whether bindings are in the order of their columns, each column once.
pub open spec fn in_column_order(bindings: Seq<ColumnBinding>) -> bool {
    forall|i: int, j: int|
        0 <= i < j < bindings.len() ==> (#[trigger] bindings[i]).column_number < (
        #[trigger] bindings[j]).column_number
}

/// Whether the columns before `at` are lower than a column, and no other is.
pub open spec fn placed_at(bindings: Seq<ColumnBinding>, column: SqlUSmallInt, at: int) -> bool {
    &&& 0 <= at <= bindings.len()
    &&& forall|k: int| 0 <= k < at ==> (#[trigger] bindings[k]).column_number < column
    &&& forall|k: int| at <= k < bindings.len() ==> (#[trigger] bindings[k]).column_number >= column
}

/// Bindings with a column bound whose place is `at`: what the column was bound
/// to before is replaced.
pub open spec fn with_binding(bindings: Seq<ColumnBinding>, binding: ColumnBinding, at: int) -> Seq<
    ColumnBinding,
> {
    if at < bindings.len() && bindings[at].column_number == binding.column_number {
        bindings.update(at, binding)
    } else {
        bindings.insert(at, binding)
    }
}

/// Bindings without that of a column.
pub open spec fn without_column(bindings: Seq<ColumnBinding>, column: SqlUSmallInt) -> Seq<
    ColumnBinding,
> {
    bindings.filter(|binding: ColumnBinding| binding.column_number != column)
}

/// Whether any of some flags is set.
pub open spec fn any_set(flags: u32, mask: u32) -> bool {
    flags & mask != 0
}

/// Flags with some set.
pub open spec fn with_flags(flags: u32, mask: u32) -> u32 {
    flags | mask
}

/// Flags with some cleared.
pub open spec fn without_flags(flags: u32, mask: u32) -> u32 {
    flags & !mask
}

/// Whether the names in UTF-16 are those of the columns.
pub open spec fn names_cached(names: Seq<Vec<u16>>, columns: Seq<ColumnMetadata>) -> bool {
    &&& names.len() == columns.len()
    &&& forall|k: int|
        0 <= k < names.len() ==> (#[trigger] names[k])@ == unicode::utf16_of(
            columns[k].column_name@,
        )
}

/// Whether a limit on rows is reached.
pub open spec fn limit_reached(max_rows: SqlULen, rows_returned: SqlULen) -> bool {
    max_rows != 0 && rows_returned >= max_rows
}

/// Whether any column comes in chunks.
pub open spec fn any_plp(columns: Seq<ColumnMetadata>) -> bool {
    exists|k: int| 0 <= k < columns.len() && (#[trigger] columns[k]).plp
}

/// Whether the encodings are those of the columns, where any comes in chunks.
pub open spec fn encodings_cached(
    encodings: Option<Vec<Option<PlpEncoding>>>,
    columns: Seq<ColumnMetadata>,
) -> bool {
    match encodings {
        Some(encodings) => {
            &&& any_plp(columns)
            &&& encodings@ == columns.map_values(|c: ColumnMetadata| c.plp_encoding)
        },
        None => !any_plp(columns),
    }
}

impl<C, D> StmtState<C, D> {
    /// Whether columns are bound in order, and no handle waits for release
    /// while the prepared statement has a live one.
    pub open spec fn wf(self) -> bool {
        &&& in_column_order(self.bindings@)
        &&& self.prepared is Some && self.prepared->0.stmt.id is Some
            ==> self.pending_unprepare is None
        &&& self.dae matches Some(dae) ==> dae.wf()
    }

    /// Whether any of these flags is set.
    pub fn has_state(&self, mask: u32) -> (set: bool)
        ensures
            set == any_set(self.state_flags, mask),
    {
        (self.state_flags & mask) != 0
    }

    /// Sets flags.
    pub fn set_state(&mut self, mask: u32)
        ensures
            *final(self) == (StmtState {
                state_flags: with_flags(old(self).state_flags, mask),
                ..*old(self)
            }),
    {
        self.state_flags = self.state_flags | mask;
    }

    /// Clears flags.
    pub fn clear_state(&mut self, mask: u32)
        ensures
            *final(self) == (StmtState {
                state_flags: without_flags(old(self).state_flags, mask),
                ..*old(self)
            }),
    {
        self.state_flags = self.state_flags & !mask;
    }

    /// Forgets what reading ahead found out of the result before.
    pub fn clear_exhaustion_state(&mut self)
        ensures
            final(self).pending_fetch_info@.len() == 0,
            *final(self) == (StmtState {
                result_set_exhausted: false,
                batch_exhausted: false,
                pending_fetch_error: None,
                pending_fetch_info: final(self).pending_fetch_info,
                ..*old(self)
            }),
    {
        self.result_set_exhausted = false;
        self.batch_exhausted = false;
        self.pending_fetch_error = None;
        self.pending_fetch_info.clear();
    }

    /// Binds a column, or binds it anew.
    pub fn set_binding(&mut self, binding: ColumnBinding)
        requires
            old(self).wf(),
        ensures
            final(self).wf(),
            exists|at: int| #[trigger]
                placed_at(old(self).bindings@, binding.column_number, at)
                    && final(self).bindings@ == with_binding(old(self).bindings@, binding, at),
            *final(self) == (StmtState { bindings: final(self).bindings, ..*old(self) }),
    {
        let column: SqlUSmallInt = binding.column_number;
        let mut low: usize = 0;
        let mut high: usize = self.bindings.len();
        let ghost before = self.bindings@;
        while low < high
            invariant
                0 <= low <= high <= self.bindings@.len(),
                self.bindings@ == before,
                *self == *old(self),
                in_column_order(before),
                forall|k: int| 0 <= k < low ==> (#[trigger] before[k]).column_number < column,
                forall|k: int|
                    high <= k < before.len() ==> (#[trigger] before[k]).column_number >= column,
            decreases high - low,
        {
            let middle: usize = low + (high - low) / 2;
            if self.bindings[middle].column_number < column {
                low = middle + 1;
            } else {
                high = middle;
            }
        }
        assert(placed_at(before, column, low as int));
        if low < self.bindings.len() && self.bindings[low].column_number == column {
            self.bindings[low] = binding;
        } else {
            self.bindings.insert(low, binding);
        }
        assert(self.bindings@ =~= with_binding(before, binding, low as int));
        proof {
            lemma_order_kept(before, binding, low as int);
        }
    }

    /// Unbinds a column.
    pub fn clear_binding(&mut self, column_number: SqlUSmallInt)
        requires
            old(self).wf(),
        ensures
            final(self).wf(),
            final(self).bindings@ == without_column(old(self).bindings@, column_number),
            *final(self) == (StmtState { bindings: final(self).bindings, ..*old(self) }),
    {
        let ghost keep = |binding: ColumnBinding| binding.column_number != column_number;
        let ghost before = self.bindings@;
        let mut kept: Vec<ColumnBinding> = Vec::new();
        let mut k: usize = 0;
        proof {
            reveal_with_fuel(Seq::filter, 1);
            assert(before.take(0).filter(keep) =~= Seq::<ColumnBinding>::empty());
        }
        while k < self.bindings.len()
            invariant
                k <= self.bindings@.len(),
                *self == *old(self),
                self.bindings@ == before,
                in_column_order(before),
                keep == (|binding: ColumnBinding| binding.column_number != column_number),
                kept@ == before.take(k as int).filter(keep),
                in_column_order(kept@),
                kept@.len() > 0 && k < before.len() ==> kept@.last().column_number
                    < before[k as int].column_number,
                kept@.len() > 0 ==> k > 0,
                kept@.len() > 0 ==> exists|j: int| 0 <= j < k && before[j] == kept@.last(),
            decreases self.bindings.len() - k,
        {
            proof {
                let head = before.take(k + 1);
                assert(head.drop_last() =~= before.take(k as int));
                assert(head.last() == before[k as int]);
                reveal_with_fuel(Seq::filter, 1);
            }
            if self.bindings[k].column_number != column_number {
                let ghost shorter = kept@;
                kept.push(self.bindings[k]);
                assert(before[k as int] == kept@.last());
                assert forall|i: int, j: int| 0 <= i < j < kept@.len() implies (
                #[trigger] kept@[i]).column_number < (#[trigger] kept@[j]).column_number by {
                    if j == shorter.len() {
                        assert(kept@[i] == shorter[i]);
                        if i < shorter.len() - 1 {
                            assert(shorter[i].column_number < shorter[shorter.len()
                                - 1].column_number);
                        }
                    }
                }
            }
            k = k + 1;
        }
        assert(before.take(k as int) =~= before);
        self.bindings = kept;
    }

    /// Unbinds every column.
    pub fn clear_bindings(&mut self)
        requires
            old(self).wf(),
        ensures
            final(self).wf(),
            final(self).bindings@.len() == 0,
            *final(self) == (StmtState { bindings: final(self).bindings, ..*old(self) }),
    {
        self.bindings.clear();
    }

    /// Whether `after` is this state at the start of a result with these columns,
    /// that of the command of this number.
    pub open spec fn at_result(
        self,
        after: Self,
        metadata: Vec<ColumnMetadata>,
        command: SqlULen,
    ) -> bool {
        &&& names_cached(after.column_names_utf16@, metadata@)
        &&& encodings_cached(after.plp_encodings, metadata@)
        &&& after == (StmtState {
            column_metadata: metadata,
            column_names_utf16: after.column_names_utf16,
            plp_encodings: after.plp_encodings,
            rows_returned: 0,
            current_command: command,
            ..self
        })
    }

    /// Makes these columns the current result. The limit on rows is one of
    /// each result, so it starts anew.
    pub fn begin_result_set(&mut self, metadata: Vec<ColumnMetadata>)
        requires
            old(self).current_command < usize::MAX,
        ensures
            old(self).at_result(
                *final(self),
                metadata,
                (old(self).current_command + 1) as usize,
            ),
    {
        self.column_metadata = metadata;
        self.refresh_metadata_caches();
        self.rows_returned = 0;
        self.current_command = self.current_command + 1;
    }

    /// Makes what is derived from the columns anew.
    pub fn refresh_metadata_caches(&mut self)
        ensures
            names_cached(final(self).column_names_utf16@, old(self).column_metadata@),
            encodings_cached(final(self).plp_encodings, old(self).column_metadata@),
            *final(self) == (StmtState {
                column_names_utf16: final(self).column_names_utf16,
                plp_encodings: final(self).plp_encodings,
                ..*old(self)
            }),
    {
        let mut names: Vec<Vec<u16>> = Vec::new();
        let mut encodings: Vec<Option<PlpEncoding>> = Vec::new();
        let mut any: bool = false;
        let mut k: usize = 0;
        let ghost columns = self.column_metadata@;
        let ghost encoding_of = |c: ColumnMetadata| c.plp_encoding;
        while k < self.column_metadata.len()
            invariant
                k <= columns.len(),
                *self == *old(self),
                self.column_metadata@ == columns,
                names@.len() == k,
                forall|j: int|
                    0 <= j < k ==> (#[trigger] names@[j])@ == unicode::utf16_of(
                        columns[j].column_name@,
                    ),
                encoding_of == (|c: ColumnMetadata| c.plp_encoding),
                encodings@ == columns.map_values(encoding_of).take(k as int),
                any == (exists|j: int| 0 <= j < k && (#[trigger] columns[j]).plp),
            decreases self.column_metadata.len() - k,
        {
            let text: Vec<char> = chars_of(self.column_metadata[k].column_name.as_str());
            names.push(encode_units(text.as_slice()));
            encodings.push(self.column_metadata[k].plp_encoding);
            if self.column_metadata[k].plp {
                assert(columns[k as int].plp);
                any = true;
            }
            assert(encodings@ =~= columns.map_values(encoding_of).take(k + 1));
            k = k + 1;
        }
        assert(columns.map_values(encoding_of).take(k as int) =~= columns.map_values(encoding_of));
        self.column_names_utf16 = names;
        self.plp_encodings = if any {
            Some(encodings)
        } else {
            None
        };
    }

    /// Forgets the columns and what is derived from them.
    pub fn clear_result_metadata(&mut self)
        ensures
            final(self).column_metadata@.len() == 0,
            final(self).column_names_utf16@.len() == 0,
            final(self).plp_encodings is None,
            *final(self) == (StmtState {
                column_metadata: final(self).column_metadata,
                column_names_utf16: final(self).column_names_utf16,
                plp_encodings: None,
                ..*old(self)
            }),
    {
        self.column_metadata.clear();
        self.column_names_utf16.clear();
        self.plp_encodings = None;
    }

    /// Makes these columns the first result of an execution.
    pub fn begin_batch(&mut self, metadata: Vec<ColumnMetadata>)
        ensures
            old(self).at_result(*final(self), metadata, 1),
    {
        self.current_command = 0;
        self.begin_result_set(metadata);
    }

    /// Whether the limit on rows is reached.
    pub fn max_rows_reached(&self) -> (reached: bool)
        ensures
            reached == limit_reached(self.max_rows, self.rows_returned),
    {
        self.max_rows != 0 && self.rows_returned >= self.max_rows
    }

    /// The state without a row.
    pub open spec fn without_row(self) -> Self {
        StmtState {
            row_positioned: false,
            last_captured: None,
            buffered_get_data_row: None,
            last_variant_base: None,
            row_exhausted: false,
            active_plp: None,
            current_row_last_col: 0,
            partial_text_offset: None,
            direct_text_target: None,
            ..self
        }
    }

    /// Forgets the current row.
    pub fn reset_row_stream(&mut self)
        ensures
            *final(self) == old(self).without_row(),
    {
        self.row_positioned = false;
        self.last_captured = None;
        self.buffered_get_data_row = None;
        self.last_variant_base = None;
        self.row_exhausted = false;
        self.active_plp = None;
        self.current_row_last_col = 0;
        self.partial_text_offset = None;
        self.direct_text_target = None;
    }

    /// Starts a row.
    pub fn begin_row(&mut self)
        ensures
            *final(self) == (StmtState { row_positioned: true, ..old(self).without_row() }),
    {
        self.reset_row_stream();
        self.row_positioned = true;
    }

    /// Whether `after` is this state with the live handle of its prepared
    /// statement handed over for release.
    pub open spec fn handle_orphaned(self, after: Self) -> bool {
        match self.prepared {
            Some(plan) => if plan.stmt.id is Some {
                &&& after.prepared matches Some(left)
                &&& left.stmt.id is None
                &&& left.stmt.sql == plan.stmt.sql
                &&& left.marker_count == plan.marker_count
                &&& after == (StmtState {
                    prepared: after.prepared,
                    pending_unprepare: plan.stmt.id,
                    ..self
                })
            } else {
                after == self
            },
            None => after == self,
        }
    }

    /// Hands the live handle of the prepared statement over for release, and
    /// keeps its text to be prepared again.
    pub fn orphan_prepared_handle(&mut self)
        requires
            old(self).wf(),
        ensures
            final(self).wf(),
            old(self).handle_orphaned(*final(self)),
    {
        match self.prepared.take() {
            Some(plan) => {
                let mut plan = plan;
                let id: Option<StatementId> = plan.stmt.take_id();
                self.prepared = Some(plan);
                if id.is_some() {
                    self.pending_unprepare = id;
                }
            },
            None => {},
        }
    }

    /// The state after a sequence that supplies values at execution, with what
    /// the sequence had of it back.
    pub open spec fn without_dae(self) -> Self {
        match self.dae {
            Some(dae) => StmtState {
                dae: None,
                prepared: dae.prepared,
                pending_unprepare: dae.orphaned,
                ..self
            },
            None => self,
        }
    }

    /// Ends a sequence that supplies values at execution, and gives the client
    /// back that it held. The statement gets its plan back at the same time.
    pub fn take_dae(&mut self) -> (client: Option<C>)
        requires
            old(self).wf(),
        ensures
            final(self).wf(),
            client == old(self).held_client(),
            *final(self) == old(self).without_dae(),
    {
        match self.dae.take() {
            Some(dae) => {
                self.prepared = dae.prepared;
                self.pending_unprepare = dae.orphaned;
                dae.client
            },
            None => None,
        }
    }

    /// Whether values are to be supplied.
    pub fn needs_data(&self) -> (needs: bool)
        ensures
            needs == (self.dae is Some),
    {
        self.dae.is_some()
    }

    /// The token of the open parameter; zero where none is open.
    pub fn dae_current_value_ptr(&self) -> (token: SqlPointer)
        ensures
            token == self.open_token(),
    {
        match &self.dae {
            Some(dae) => match dae.current_param() {
                Some(param) => param.value_ptr,
                None => 0,
            },
            None => 0,
        }
    }

    /// The token of the open parameter; zero where none is open.
    pub open spec fn open_token(self) -> SqlPointer {
        match self.dae {
            Some(dae) => match dae.open_param() {
                Some(param) => param.value_ptr,
                None => 0,
            },
            None => 0,
        }
    }

    /// The C type of the open parameter.
    pub open spec fn open_c_type(self) -> Option<SqlSmallInt> {
        match self.open_binding() {
            Some(binding) => Some(binding.c_type),
            None => None,
        }
    }

    /// The binding of the open parameter.
    pub open spec fn open_binding(self) -> Option<BoundParam> {
        match self.dae {
            Some(dae) => match dae.open_param() {
                Some(param) => if param.bound_index < self.bound_params@.len() {
                    self.bound_params@[param.bound_index as int]
                } else {
                    None
                },
                None => None,
            },
            None => None,
        }
    }

    /// The binding of the open parameter.
    fn dae_current_bound_param(&self) -> (binding: Option<&BoundParam>)
        ensures
            match binding {
                Some(binding) => self.open_binding() == Some(*binding),
                None => self.open_binding() is None,
            },
    {
        match &self.dae {
            Some(dae) => match dae.current_param() {
                Some(param) => if param.bound_index < self.bound_params.len() {
                    self.bound_params[param.bound_index].as_ref()
                } else {
                    None
                },
                None => None,
            },
            None => None,
        }
    }

    /// The C type of the open parameter.
    pub fn dae_current_c_type(&self) -> (c_type: Option<SqlSmallInt>)
        ensures
            c_type == self.open_c_type(),
    {
        match self.dae_current_bound_param() {
            Some(binding) => Some(binding.c_type),
            None => None,
        }
    }
}

/// Binding a column keeps the columns in order.
proof fn lemma_order_kept(bindings: Seq<ColumnBinding>, binding: ColumnBinding, at: int)
    requires
        in_column_order(bindings),
        placed_at(bindings, binding.column_number, at),
    ensures
        in_column_order(with_binding(bindings, binding, at)),
{
    let after = with_binding(bindings, binding, at);
    if at < bindings.len() && bindings[at].column_number == binding.column_number {
        assert forall|i: int, j: int| 0 <= i < j < after.len() implies (
        #[trigger] after[i]).column_number < (#[trigger] after[j]).column_number by {
            assert(bindings[i].column_number < bindings[j].column_number);
        }
    } else {
        assert forall|i: int, j: int| 0 <= i < j < after.len() implies (
        #[trigger] after[i]).column_number < (#[trigger] after[j]).column_number by {
            if i < at && j > at {
                assert(bindings[i].column_number < bindings[j - 1].column_number);
            } else if j < at {
                assert(bindings[i].column_number < bindings[j].column_number);
            } else if i > at {
                assert(bindings[i - 1].column_number < bindings[j - 1].column_number);
            } else if i == at {
                assert(bindings[j - 1].column_number >= binding.column_number);
                assert(bindings[at].column_number >= binding.column_number);
            }
        }
    }
}

/// A column has one binding, the last that was made; the bindings of the other
/// columns are not touched.
pub proof fn binding_a_column_leaves_the_others(
    bindings: Seq<ColumnBinding>,
    binding: ColumnBinding,
    at: int,
    other: ColumnBinding,
)
    requires
        in_column_order(bindings),
        placed_at(bindings, binding.column_number, at),
    ensures
        with_binding(bindings, binding, at).contains(binding),
        other.column_number != binding.column_number ==> (with_binding(
            bindings,
            binding,
            at,
        ).contains(other) <==> bindings.contains(other)),
        other.column_number == binding.column_number && with_binding(
            bindings,
            binding,
            at,
        ).contains(other) ==> other == binding,
{
    let after = with_binding(bindings, binding, at);
    lemma_order_kept(bindings, binding, at);
    assert(after[at] == binding);
    if bindings.contains(other) && other.column_number != binding.column_number {
        let k = choose|k: int| 0 <= k < bindings.len() && bindings[k] == other;
        if after.len() == bindings.len() {
            assert(after[k] == other);
        } else if k < at {
            assert(after[k] == other);
        } else {
            assert(after[k + 1] == other);
        }
    }
    if after.contains(other) {
        let k = choose|k: int| 0 <= k < after.len() && after[k] == other;
        if other.column_number != binding.column_number {
            if after.len() == bindings.len() || k < at {
                assert(bindings[k] == other);
            } else {
                assert(bindings[k - 1] == other);
            }
        } else if k < at {
            assert(after[k].column_number < after[at].column_number);
        } else if k > at {
            assert(after[at].column_number < after[k].column_number);
        }
    }
}

/// Setting and clearing flags changes those flags and no other.
pub proof fn flags_are_independent(flags: u32, mask: u32, other: u32)
    requires
        other & mask == 0,
    ensures
        mask != 0 ==> (flags | mask) & mask != 0,
        (flags & !mask) & mask == 0,
        (flags | mask) & other == flags & other,
        (flags & !mask) & other == flags & other,
{
    assert(mask != 0 ==> (flags | mask) & mask != 0) by (bit_vector);
    assert((flags & !mask) & mask == 0) by (bit_vector);
    assert((flags | mask) & other == flags & other) by (bit_vector)
        requires
            other & mask == 0,
    ;
    assert((flags & !mask) & other == flags & other) by (bit_vector)
        requires
            other & mask == 0,
    ;
}

/// A statement, with the four descriptors it owns.
#[derive(Debug)]
pub struct StmtHandle<C, D> {
    /// The connection it belongs to.
    pub parent_dbc: usize,
    pub ard: DescHandle,
    pub apd: DescHandle,
    pub ird: DescHandle,
    pub ipd: DescHandle,
    pub state: StmtState<C, D>,
}

/// Whether a descriptor is a new implicit one of a kind.
pub open spec fn is_implicit(descriptor: DescHandle, kind: DescKind, parent_dbc: usize) -> bool {
    &&& descriptor.kind == kind
    &&& descriptor.alloc_type == SQL_DESC_ALLOC_AUTO
    &&& descriptor.parent_dbc == parent_dbc
    &&& descriptor.state.header == desc::DescHeader::initial(SQL_DESC_ALLOC_AUTO)
    &&& descriptor.state.records@.len() == 0
    &&& descriptor.state.diag_records@.len() == 0
}

impl<C, D> StmtState<C, D> {
    /// Whether a statement has not been used yet.
    pub open spec fn is_new(self, query_timeout: u32) -> bool {
        &&& self.diag_records@.len() == 0
        &&& self.column_metadata@.len() == 0
        &&& self.column_names_utf16@.len() == 0
        &&& self.plp_encodings is None
        &&& self.plp_prefetch_scratch@.len() == 0
        &&& !self.result_set_exhausted
        &&& !self.batch_exhausted
        &&& self.pending_fetch_error is None
        &&& self.pending_fetch_info@.len() == 0
        &&& self.prepared is None
        &&& self.parameter_metadata@.len() == 0
        &&& self.bound_params@.len() == 0
        &&& self.pending_unprepare is None
        &&& self == self.without_row()
        &&& self.spare_get_data_row is None
        &&& self.row_count == -1
        &&& self.pending_row_counts@.len() == 0
        &&& self.row_array_size == 1
        &&& self.rows_fetched_ptr == 0
        &&& self.row_status_ptr == 0
        &&& self.row_bind_type == SQL_BIND_BY_COLUMN
        &&& self.row_bind_offset_ptr == 0
        &&& self.bindings@.len() == 0
        &&& self.active_ard is None
        &&& self.active_apd is None
        &&& self.state_flags == 0
        &&& self.dae is None
        &&& self.query_timeout == query_timeout
        &&& self.max_rows == 0
        &&& self.rows_returned == 0
        &&& forall|attribute: SqlInteger| #[trigger]
            self.inert_attrs.value(attribute) == stmt_attrs::inert_default(attribute)
        &&& forall|attribute: SqlInteger| #[trigger]
            self.vendor_attrs.value(attribute) == (match stmt_attrs::vendor_rule(attribute) {
                Some((default, _)) => Some(default),
                None => None,
            })
        &&& self.qn_msgtext@.len() == 0
        &&& self.qn_options@.len() == 0
        &&& self.current_command == 0
    }
}

impl<C, D> StmtHandle<C, D> {
    /// A new statement. It starts with the connection's timeout.
    pub fn new(parent_dbc: usize, query_timeout: u32) -> (stmt: Self)
        ensures
            stmt.parent_dbc == parent_dbc,
            is_implicit(stmt.ard, DescKind::AppRow, parent_dbc),
            is_implicit(stmt.apd, DescKind::AppParam, parent_dbc),
            is_implicit(stmt.ird, DescKind::ImpRow, parent_dbc),
            is_implicit(stmt.ipd, DescKind::ImpParam, parent_dbc),
            stmt.state.is_new(query_timeout),
            stmt.state.wf(),
    {
        StmtHandle {
            parent_dbc,
            ard: DescHandle::new(DescKind::AppRow, SQL_DESC_ALLOC_AUTO, parent_dbc),
            apd: DescHandle::new(DescKind::AppParam, SQL_DESC_ALLOC_AUTO, parent_dbc),
            ird: DescHandle::new(DescKind::ImpRow, SQL_DESC_ALLOC_AUTO, parent_dbc),
            ipd: DescHandle::new(DescKind::ImpParam, SQL_DESC_ALLOC_AUTO, parent_dbc),
            state: StmtState {
                diag_records: Vec::new(),
                column_metadata: Vec::new(),
                column_names_utf16: Vec::new(),
                plp_encodings: None,
                plp_prefetch_scratch: Vec::new(),
                result_set_exhausted: false,
                batch_exhausted: false,
                pending_fetch_error: None,
                pending_fetch_info: Vec::new(),
                prepared: None,
                parameter_metadata: Vec::new(),
                bound_params: Vec::new(),
                pending_unprepare: None,
                row_positioned: false,
                last_captured: None,
                buffered_get_data_row: None,
                spare_get_data_row: None,
                last_variant_base: None,
                row_exhausted: false,
                active_plp: None,
                current_row_last_col: 0,
                partial_text_offset: None,
                direct_text_target: None,
                row_count: -1,
                pending_row_counts: VecDeque::new(),
                row_array_size: 1,
                rows_fetched_ptr: 0,
                row_status_ptr: 0,
                row_bind_type: SQL_BIND_BY_COLUMN,
                row_bind_offset_ptr: 0,
                bindings: Vec::new(),
                active_ard: None,
                active_apd: None,
                state_flags: 0,
                dae: None,
                query_timeout,
                max_rows: 0,
                rows_returned: 0,
                inert_attrs: InertStmtAttrs::default(),
                vendor_attrs: VendorStmtAttrs::default(),
                qn_msgtext: String::new(),
                qn_options: String::new(),
                current_command: 0,
            },
        }
    }
}

/// A limit on rows is reached with its last row, not before; without a limit it
/// never is.
pub proof fn a_limit_is_reached_with_its_last_row(max_rows: SqlULen, rows_returned: SqlULen)
    ensures
        !limit_reached(0, rows_returned),
        max_rows > 0 && rows_returned < max_rows ==> !limit_reached(max_rows, rows_returned),
        max_rows > 0 && rows_returned >= max_rows ==> limit_reached(max_rows, rows_returned),
{
}

/// The names in UTF-16 are the columns' names, in their order.
pub proof fn cached_names_read_as_the_names(
    names: Seq<Vec<u16>>,
    columns: Seq<ColumnMetadata>,
    k: int,
)
    requires
        names_cached(names, columns),
        0 <= k < columns.len(),
    ensures
        names.len() == columns.len(),
        unicode::lossy_utf16(names[k]@) == columns[k].column_name@,
{
    unicode::utf16_round_trips(columns[k].column_name@);
}

/// The encodings are kept exactly where a column comes in chunks, and then those of
/// all columns, in their order.
pub proof fn cached_encodings_are_the_columns(
    encodings: Option<Vec<Option<PlpEncoding>>>,
    columns: Seq<ColumnMetadata>,
    k: int,
)
    requires
        encodings_cached(encodings, columns),
        0 <= k < columns.len(),
    ensures
        columns[k].plp ==> encodings is Some,
        encodings matches Some(kept) ==> kept@.len() == columns.len() && kept@[k]
            == columns[k].plp_encoding,
        (forall|j: int| 0 <= j < columns.len() ==> !(#[trigger] columns[j]).plp) ==> encodings
            is None,
{
}

/// Forgetting the row forgets how far it was read, and nothing of the result, the
/// bindings, the plan or the attributes.
pub proof fn forgetting_the_row_keeps_the_rest<C, D>(state: StmtState<C, D>)
    ensures
        !state.without_row().row_positioned,
        !state.without_row().row_exhausted,
        state.without_row().active_plp is None,
        state.without_row().last_captured is None,
        state.without_row().buffered_get_data_row is None,
        state.without_row().last_variant_base is None,
        state.without_row().partial_text_offset is None,
        state.without_row().direct_text_target is None,
        state.without_row().current_row_last_col == 0,
        state.without_row().column_metadata == state.column_metadata,
        state.without_row().rows_returned == state.rows_returned,
        state.without_row().row_count == state.row_count,
        state.without_row().bindings == state.bindings,
        state.without_row().bound_params == state.bound_params,
        state.without_row().prepared == state.prepared,
        state.without_row().pending_unprepare == state.pending_unprepare,
        state.without_row().dae == state.dae,
        state.without_row().state_flags == state.state_flags,
        state.without_row().diag_records == state.diag_records,
        state.without_row().spare_get_data_row == state.spare_get_data_row,
        state.without_row().pending_fetch_error == state.pending_fetch_error,
        state.without_row().result_set_exhausted == state.result_set_exhausted,
        state.without_row().batch_exhausted == state.batch_exhausted,
        state.wf() ==> state.without_row().wf(),
        state.without_row().without_row() == state.without_row(),
{
}

/// A sequence that supplies values gives back what it was started with: the
/// statement has its plan and the handle to be released again, and the caller the
/// client, however many parameters were asked for meanwhile.
pub proof fn a_sequence_gives_back_what_it_took<C, D>(
    state: StmtState<C, D>,
    dae: DaeState<C>,
    client: C,
)
    requires
        state.dae is None,
        dae.client == Some(client),
        dae.prepared == state.prepared,
        dae.orphaned == state.pending_unprepare,
    ensures
        ({
            let running = StmtState {
                dae: Some(dae),
                prepared: None,
                pending_unprepare: None,
                ..state
            };
            &&& running.without_dae() == state
            &&& running.held_client() == Some(client)
            &&& running.without_dae().held_client() is None
        }),
{
}

/// A handle handed over for release is the one the plan had, and the plan keeps its
/// text to be prepared again. What has no live handle is left alone, so handing
/// over a second time changes nothing.
pub proof fn a_handle_is_handed_over_once<C, D>(
    before: StmtState<C, D>,
    after: StmtState<C, D>,
    again: StmtState<C, D>,
)
    requires
        before.handle_orphaned(after),
        after.handle_orphaned(again),
    ensures
        again == after,
        before.prepared matches Some(plan) ==> after.prepared is Some
            && after.prepared->0.stmt.sql == plan.stmt.sql && after.prepared->0.marker_count
            == plan.marker_count && after.prepared->0.stmt.id is None,
        before.prepared matches Some(plan) && plan.stmt.id is Some ==> after.pending_unprepare
            == before.prepared->0.stmt.id,
        before.prepared is None || before.prepared->0.stmt.id is None ==> after == before,
        after.bindings == before.bindings,
        after.bound_params == before.bound_params,
{
}

/// The token and the C type asked for are those of the open parameter; while none is
/// open there are none.
pub proof fn the_open_parameter_is_asked_for<C, D>(
    state: StmtState<C, D>,
    dae: DaeState<C>,
    cursor: usize,
)
    requires
        state.dae == Some(dae),
        dae.cursor == Some(cursor),
    ensures
        cursor < dae.params@.len() ==> state.open_token() == dae.params@[cursor as int].value_ptr,
        cursor >= dae.params@.len() ==> state.open_token() == 0 && state.open_c_type() is None,
        cursor < dae.params@.len() ==> ({
            let index = dae.params@[cursor as int].bound_index;
            &&& index < state.bound_params@.len() && state.bound_params@[index as int] is Some
                ==> state.open_c_type() == Some(state.bound_params@[index as int]->0.c_type)
            &&& index >= state.bound_params@.len() || state.bound_params@[index as int] is None
                ==> state.open_c_type() is None
        }),
{
}

/// Without a sequence no parameter is asked for.
pub proof fn no_parameter_is_asked_for_without_a_sequence<C, D>(state: StmtState<C, D>)
    requires
        state.dae is None,
    ensures
        state.open_token() == 0,
        state.open_c_type() is None,
        state.held_client() is None,
        state.without_dae() == state,
{
}

/// A new statement has fetched nothing, prepared nothing and bound nothing; its
/// rows come one by one, bound by column, and none is affected yet.
pub proof fn a_new_statement_is_blank<C, D>(state: StmtState<C, D>, query_timeout: u32)
    requires
        state.is_new(query_timeout),
    ensures
        state.wf(),
        state.query_timeout == query_timeout,
        state.row_count == -1,
        state.row_array_size == 1,
        state.row_bind_type == 0,
        !limit_reached(state.max_rows, state.rows_returned),
        !state.row_positioned,
        state.state_flags == 0,
        state.current_command == 0,
        state.prepared is None && state.dae is None && state.bindings@.len() == 0
            && state.bound_params@.len() == 0,
{
}

/// Setting flags sets these and clearing them clears these; no other flag changes
/// with them, and a flag is there exactly if any of its bits is.
pub proof fn flags_are_set_and_cleared(flags: u32, mask: u32, other: u32)
    requires
        other & mask == 0,
    ensures
        mask != 0 ==> any_set(with_flags(flags, mask), mask),
        !any_set(without_flags(flags, mask), mask),
        any_set(with_flags(flags, mask), other) == any_set(flags, other),
        any_set(without_flags(flags, mask), other) == any_set(flags, other),
        !any_set(0, mask),
{
    flags_are_independent(flags, mask, other);
    assert(0u32 & mask == 0) by (bit_vector);
}

/// Unbinding a column takes its binding and no other.
pub proof fn unbinding_a_column_leaves_the_others(
    bindings: Seq<ColumnBinding>,
    column: SqlUSmallInt,
    binding: ColumnBinding,
)
    ensures
        without_column(bindings, column).contains(binding) <==> bindings.contains(binding)
            && binding.column_number != column,
    decreases bindings.len(),
{
    reveal_with_fuel(Seq::filter, 1);
    let after = without_column(bindings, column);
    if bindings.len() > 0 {
        let front = bindings.drop_last();
        let kept = without_column(front, column);
        unbinding_a_column_leaves_the_others(front, column, binding);
        assert(bindings =~= front.push(bindings.last()));
        lemma_contains_after_push(front, bindings.last(), binding);
        if bindings.last().column_number != column {
            assert(after == kept.push(bindings.last()));
            lemma_contains_after_push(kept, bindings.last(), binding);
        } else {
            assert(after == kept);
        }
    }
}

/// What a row of bindings holds with one more behind it.
proof fn lemma_contains_after_push(
    bindings: Seq<ColumnBinding>,
    last: ColumnBinding,
    binding: ColumnBinding,
)
    ensures
        bindings.push(last).contains(binding) <==> bindings.contains(binding) || binding == last,
{
    let all = bindings.push(last);
    if bindings.contains(binding) {
        let k = choose|k: int| 0 <= k < bindings.len() && bindings[k] == binding;
        assert(all[k] == binding);
    }
    if binding == last {
        assert(all[bindings.len() as int] == binding);
    }
}

/// A result starts its own count of rows, so that no limit is reached at its start. It
/// has its own columns, and the bindings, the row and the plan are as they were.
pub proof fn a_result_starts_its_own_count<C, D>(
    before: StmtState<C, D>,
    after: StmtState<C, D>,
    metadata: Vec<ColumnMetadata>,
    command: SqlULen,
)
    requires
        before.at_result(after, metadata, command),
    ensures
        after.rows_returned == 0,
        !limit_reached(after.max_rows, after.rows_returned),
        after.max_rows == before.max_rows,
        after.current_command == command,
        after.column_metadata@ == metadata@,
        after.column_names_utf16@.len() == metadata@.len(),
        after.bindings == before.bindings,
        after.prepared == before.prepared,
        after.dae == before.dae,
        after.row_positioned == before.row_positioned,
        after.state_flags == before.state_flags,
        after.bound_params == before.bound_params,
{
}

} // verus!
