//! Statement attributes that are kept and read back.
//!
//! Some have no effect and take any value; those of the vendor take the values
//! their rule admits. A refused value leaves the one before in place.

use vstd::prelude::*;

use crate::odbc_types::{
    SQL_ATTR_ASYNC_ENABLE, SQL_ATTR_CURSOR_SENSITIVITY, SQL_ATTR_ENABLE_AUTO_IPD,
    SQL_ATTR_FETCH_BOOKMARK_PTR, SQL_ATTR_KEYSET_SIZE, SQL_ATTR_MAX_LENGTH, SQL_ATTR_METADATA_ID,
    SQL_ATTR_NOSCAN, SQL_ATTR_PARAMS_PROCESSED_PTR, SQL_ATTR_PARAM_BIND_OFFSET_PTR,
    SQL_ATTR_PARAM_BIND_TYPE, SQL_ATTR_PARAM_OPERATION_PTR, SQL_ATTR_PARAM_STATUS_PTR,
    SQL_ATTR_RETRIEVE_DATA, SQL_ATTR_ROW_OPERATION_PTR, SQL_ATTR_SIMULATE_CURSOR,
    SQL_ATTR_USE_BOOKMARKS, SQL_CO_MAX, SQL_DP_ON, SQL_INSENSITIVE, SQL_NC_ON,
    SQL_QN_TIMEOUT_DEFAULT, SQL_QN_TIMEOUT_MAX, SQL_RD_ON, SQL_ROWSET_SIZE, SQL_SC_UNIQUE,
    SQL_SOPT_SS_COLUMN_ENCRYPTION, SQL_SOPT_SS_CURRENT_COMMAND, SQL_SOPT_SS_CURSOR_OPTIONS,
    SQL_SOPT_SS_DEFER_PREPARE, SQL_SOPT_SS_HIDDEN_COLUMNS, SQL_SOPT_SS_NAME_SCOPE,
    SQL_SOPT_SS_NOBROWSETABLE, SQL_SOPT_SS_NOCOUNT_STATUS, SQL_SOPT_SS_PARAM_FOCUS,
    SQL_SOPT_SS_QUERYNOTIFICATION_TIMEOUT, SQL_SOPT_SS_REGIONALIZE, SQL_SOPT_SS_TEXTPTR_LOGGING,
    SQL_SS_NAME_SCOPE_MAX, SQL_TL_ON, SqlInteger, SqlLen, SqlPointer, SqlULen,
};

verus! {

/// The value an attribute without effect starts with; nothing for any other
/// attribute.
pub open spec fn inert_default(attribute: SqlInteger) -> Option<SqlULen> {
    if attribute == SQL_ATTR_CURSOR_SENSITIVITY {
        Some(SQL_INSENSITIVE)
    } else if attribute == SQL_ATTR_NOSCAN {
        Some(0 as SqlULen)
    } else if attribute == SQL_ATTR_MAX_LENGTH {
        Some(0 as SqlULen)
    } else if attribute == SQL_ATTR_ASYNC_ENABLE {
        Some(0 as SqlULen)
    } else if attribute == SQL_ATTR_KEYSET_SIZE {
        Some(0 as SqlULen)
    } else if attribute == SQL_ROWSET_SIZE {
        Some(1 as SqlULen)
    } else if attribute == SQL_ATTR_SIMULATE_CURSOR {
        Some(SQL_SC_UNIQUE)
    } else if attribute == SQL_ATTR_RETRIEVE_DATA {
        Some(SQL_RD_ON)
    } else if attribute == SQL_ATTR_USE_BOOKMARKS {
        Some(0 as SqlULen)
    } else if attribute == SQL_ATTR_ENABLE_AUTO_IPD {
        Some(0 as SqlULen)
    } else if attribute == SQL_ATTR_FETCH_BOOKMARK_PTR {
        Some(0 as SqlULen)
    } else if attribute == SQL_ATTR_PARAM_BIND_OFFSET_PTR {
        Some(0 as SqlULen)
    } else if attribute == SQL_ATTR_PARAM_BIND_TYPE {
        Some(0 as SqlULen)
    } else if attribute == SQL_ATTR_PARAM_OPERATION_PTR {
        Some(0 as SqlULen)
    } else if attribute == SQL_ATTR_PARAM_STATUS_PTR {
        Some(0 as SqlULen)
    } else if attribute == SQL_ATTR_PARAMS_PROCESSED_PTR {
        Some(0 as SqlULen)
    } else if attribute == SQL_ATTR_ROW_OPERATION_PTR {
        Some(0 as SqlULen)
    } else if attribute == SQL_ATTR_METADATA_ID {
        Some(0 as SqlULen)
    } else {
        None
    }
}

/// Where the value of an attribute without effect is kept.
spec fn inert_slot(attribute: SqlInteger) -> Option<int> {
    if attribute == SQL_ATTR_CURSOR_SENSITIVITY {
        Some(0int)
    } else if attribute == SQL_ATTR_NOSCAN {
        Some(1int)
    } else if attribute == SQL_ATTR_MAX_LENGTH {
        Some(2int)
    } else if attribute == SQL_ATTR_ASYNC_ENABLE {
        Some(3int)
    } else if attribute == SQL_ATTR_KEYSET_SIZE {
        Some(4int)
    } else if attribute == SQL_ROWSET_SIZE {
        Some(5int)
    } else if attribute == SQL_ATTR_SIMULATE_CURSOR {
        Some(6int)
    } else if attribute == SQL_ATTR_RETRIEVE_DATA {
        Some(7int)
    } else if attribute == SQL_ATTR_USE_BOOKMARKS {
        Some(8int)
    } else if attribute == SQL_ATTR_ENABLE_AUTO_IPD {
        Some(9int)
    } else if attribute == SQL_ATTR_FETCH_BOOKMARK_PTR {
        Some(10int)
    } else if attribute == SQL_ATTR_PARAM_BIND_OFFSET_PTR {
        Some(11int)
    } else if attribute == SQL_ATTR_PARAM_BIND_TYPE {
        Some(12int)
    } else if attribute == SQL_ATTR_PARAM_OPERATION_PTR {
        Some(13int)
    } else if attribute == SQL_ATTR_PARAM_STATUS_PTR {
        Some(14int)
    } else if attribute == SQL_ATTR_PARAMS_PROCESSED_PTR {
        Some(15int)
    } else if attribute == SQL_ATTR_ROW_OPERATION_PTR {
        Some(16int)
    } else if attribute == SQL_ATTR_METADATA_ID {
        Some(17int)
    } else {
        None
    }
}

/// The offset that moves every bound parameter, given its address and what now
/// stands there.
pub open spec fn offset_at(address: Option<SqlULen>, at_address: SqlLen) -> SqlLen {
    if address == Some(0 as SqlULen) {
        0
    } else {
        at_address
    }
}

/// Attributes that are kept and read back without any effect.
#[derive(Debug, Clone)]
pub struct InertStmtAttrs {
    values: [SqlULen; 18],
}

impl InertStmtAttrs {
    /// The value of an attribute, where it is one of these.
    pub closed spec fn value(self, attribute: SqlInteger) -> Option<SqlULen> {
        match inert_slot(attribute) {
            Some(slot) => Some(self.values@[slot]),
            None => None,
        }
    }

    /// Where the value of an attribute is kept.
    fn index_of(attribute: SqlInteger) -> (index: Option<usize>)
        ensures
            match index {
                Some(index) => inert_slot(attribute) == Some(index as int) && index < 18,
                None => inert_slot(attribute) is None,
            },
            index is Some <==> inert_default(attribute) is Some,
    {
        match attribute {
            SQL_ATTR_CURSOR_SENSITIVITY => Some(0),
            SQL_ATTR_NOSCAN => Some(1),
            SQL_ATTR_MAX_LENGTH => Some(2),
            SQL_ATTR_ASYNC_ENABLE => Some(3),
            SQL_ATTR_KEYSET_SIZE => Some(4),
            SQL_ROWSET_SIZE => Some(5),
            SQL_ATTR_SIMULATE_CURSOR => Some(6),
            SQL_ATTR_RETRIEVE_DATA => Some(7),
            SQL_ATTR_USE_BOOKMARKS => Some(8),
            SQL_ATTR_ENABLE_AUTO_IPD => Some(9),
            SQL_ATTR_FETCH_BOOKMARK_PTR => Some(10),
            SQL_ATTR_PARAM_BIND_OFFSET_PTR => Some(11),
            SQL_ATTR_PARAM_BIND_TYPE => Some(12),
            SQL_ATTR_PARAM_OPERATION_PTR => Some(13),
            SQL_ATTR_PARAM_STATUS_PTR => Some(14),
            SQL_ATTR_PARAMS_PROCESSED_PTR => Some(15),
            SQL_ATTR_ROW_OPERATION_PTR => Some(16),
            SQL_ATTR_METADATA_ID => Some(17),
            _ => None,
        }
    }

    /// Whether an attribute is one of these.
    pub fn contains(&self, attribute: SqlInteger) -> (known: bool)
        ensures
            known == (inert_default(attribute) is Some),
            known == (self.value(attribute) is Some),
    {
        Self::index_of(attribute).is_some()
    }

    /// The value of an attribute, where it is one of these.
    pub fn get(&self, attribute: SqlInteger) -> (value: Option<SqlULen>)
        ensures
            value == self.value(attribute),
            value is Some <==> inert_default(attribute) is Some,
    {
        match Self::index_of(attribute) {
            Some(index) => Some(self.values[index]),
            None => None,
        }
    }

    /// Keeps a value, where the attribute is one of these.
    pub fn set(&mut self, attribute: SqlInteger, value: SqlULen) -> (known: bool)
        ensures
            known == (inert_default(attribute) is Some),
            !known ==> *final(self) == *old(self),
            known ==> final(self).value(attribute) == Some(value),
            forall|other: SqlInteger|
                other != attribute ==> #[trigger] final(self).value(other) == old(self).value(
                    other,
                ),
    {
        match Self::index_of(attribute) {
            Some(index) => {
                self.values[index] = value;
                true
            },
            None => false,
        }
    }

    /// The address of the offset that moves every bound parameter; zero where
    /// the application set none.
    pub fn param_bind_offset_ptr(&self) -> (address: SqlPointer)
        ensures
            Some(address) == self.value(SQL_ATTR_PARAM_BIND_OFFSET_PTR),
    {
        match self.get(SQL_ATTR_PARAM_BIND_OFFSET_PTR) {
            Some(address) => address,
            None => 0,
        }
    }

    /// The offset that moves every bound parameter, given what now stands at
    /// its address. It is read at each execution, so that the application can
    /// move its bindings between two of them.
    pub fn param_bind_offset(&self, at_address: SqlLen) -> (offset: SqlLen)
        ensures
            offset == offset_at(self.value(SQL_ATTR_PARAM_BIND_OFFSET_PTR), at_address),
    {
        if self.param_bind_offset_ptr() == 0 {
            0
        } else {
            at_address
        }
    }
}

impl Default for InertStmtAttrs {
    /// Every attribute has its default.
    fn default() -> (attrs: Self)
        ensures
            forall|attribute: SqlInteger| #[trigger]
                attrs.value(attribute) == inert_default(attribute),
    {
        InertStmtAttrs {
            values: [
                SQL_INSENSITIVE,
                0,
                0,
                0,
                0,
                1,
                SQL_SC_UNIQUE,
                SQL_RD_ON,
                0,
                0,
                0,
                0,
                0,
                0,
                0,
                0,
                0,
                0,
            ],
        }
    }
}

/// Which values a vendor attribute takes.
#[derive(Debug, Clone, Copy, PartialEq, Eq, Structural)]
pub enum ValueRule {
    /// One of two.
    OneOf(SqlULen, SqlULen),
    /// Any in a range, its bounds among them.
    Range(SqlULen, SqlULen),
    /// None, though the attribute is known.
    Rejected,
    /// None: the attribute can only be read.
    GetOnly,
}

impl ValueRule {
    /// Whether a rule admits a value.
    pub open spec fn spec_admits(self, value: SqlULen) -> bool {
        match self {
            ValueRule::OneOf(a, b) => value == a || value == b,
            ValueRule::Range(low, high) => low <= value <= high,
            ValueRule::Rejected | ValueRule::GetOnly => false,
        }
    }

    /// Whether a rule admits a value.
    #[verifier::when_used_as_spec(spec_admits)]
    pub fn admits(self, value: SqlULen) -> (admitted: bool)
        ensures
            admitted == self.spec_admits(value),
    {
        match self {
            ValueRule::OneOf(a, b) => value == a || value == b,
            ValueRule::Range(low, high) => low <= value && value <= high,
            ValueRule::Rejected | ValueRule::GetOnly => false,
        }
    }
}

/// The rule of a vendor attribute, and the value it starts with; nothing for
/// any other attribute.
pub open spec fn vendor_rule(attribute: SqlInteger) -> Option<(SqlULen, ValueRule)> {
    if attribute == SQL_SOPT_SS_TEXTPTR_LOGGING {
        Some((SQL_TL_ON, ValueRule::OneOf(0, 1)))
    } else if attribute == SQL_SOPT_SS_CURRENT_COMMAND {
        Some((0 as SqlULen, ValueRule::GetOnly))
    } else if attribute == SQL_SOPT_SS_HIDDEN_COLUMNS {
        Some((0 as SqlULen, ValueRule::OneOf(0, 1)))
    } else if attribute == SQL_SOPT_SS_NOBROWSETABLE {
        Some((0 as SqlULen, ValueRule::OneOf(0, 1)))
    } else if attribute == SQL_SOPT_SS_REGIONALIZE {
        Some((0 as SqlULen, ValueRule::OneOf(0, 1)))
    } else if attribute == SQL_SOPT_SS_CURSOR_OPTIONS {
        Some((0 as SqlULen, ValueRule::Range(0, SQL_CO_MAX)))
    } else if attribute == SQL_SOPT_SS_NOCOUNT_STATUS {
        Some((SQL_NC_ON, ValueRule::GetOnly))
    } else if attribute == SQL_SOPT_SS_DEFER_PREPARE {
        Some((SQL_DP_ON, ValueRule::OneOf(0, 1)))
    } else if attribute == SQL_SOPT_SS_QUERYNOTIFICATION_TIMEOUT {
        Some((SQL_QN_TIMEOUT_DEFAULT, ValueRule::Range(1, SQL_QN_TIMEOUT_MAX)))
    } else if attribute == SQL_SOPT_SS_PARAM_FOCUS {
        Some((0 as SqlULen, ValueRule::Rejected))
    } else if attribute == SQL_SOPT_SS_NAME_SCOPE {
        Some((0 as SqlULen, ValueRule::Range(0, SQL_SS_NAME_SCOPE_MAX)))
    } else if attribute == SQL_SOPT_SS_COLUMN_ENCRYPTION {
        Some((0 as SqlULen, ValueRule::Rejected))
    } else {
        None
    }
}

/// Whether an attribute is one of the vendor's that can be set at all.
pub open spec fn can_be_set(attribute: SqlInteger) -> bool {
    vendor_rule(attribute) is Some && !((vendor_rule(attribute)->0).1 is GetOnly)
}

/// Whether an attribute is one of the vendor's that takes a value.
pub open spec fn takes(attribute: SqlInteger, value: SqlULen) -> bool {
    vendor_rule(attribute) is Some && (vendor_rule(attribute)->0).1.spec_admits(value)
}

/// Where the value of a vendor attribute is kept.
spec fn vendor_slot(attribute: SqlInteger) -> Option<int> {
    if attribute == SQL_SOPT_SS_TEXTPTR_LOGGING {
        Some(0int)
    } else if attribute == SQL_SOPT_SS_CURRENT_COMMAND {
        Some(1int)
    } else if attribute == SQL_SOPT_SS_HIDDEN_COLUMNS {
        Some(2int)
    } else if attribute == SQL_SOPT_SS_NOBROWSETABLE {
        Some(3int)
    } else if attribute == SQL_SOPT_SS_REGIONALIZE {
        Some(4int)
    } else if attribute == SQL_SOPT_SS_CURSOR_OPTIONS {
        Some(5int)
    } else if attribute == SQL_SOPT_SS_NOCOUNT_STATUS {
        Some(6int)
    } else if attribute == SQL_SOPT_SS_DEFER_PREPARE {
        Some(7int)
    } else if attribute == SQL_SOPT_SS_QUERYNOTIFICATION_TIMEOUT {
        Some(8int)
    } else if attribute == SQL_SOPT_SS_PARAM_FOCUS {
        Some(9int)
    } else if attribute == SQL_SOPT_SS_NAME_SCOPE {
        Some(10int)
    } else if attribute == SQL_SOPT_SS_COLUMN_ENCRYPTION {
        Some(11int)
    } else {
        None
    }
}

/// The vendor attributes of a statement.
#[derive(Debug, Clone)]
pub struct VendorStmtAttrs {
    values: [SqlULen; 12],
}

impl VendorStmtAttrs {
    /// The value of an attribute, where it is one of the vendor's.
    pub closed spec fn value(self, attribute: SqlInteger) -> Option<SqlULen> {
        match vendor_slot(attribute) {
            Some(slot) => Some(self.values@[slot]),
            None => None,
        }
    }

    /// Where the value of an attribute is kept, and its rule.
    fn index_of(attribute: SqlInteger) -> (index: Option<(usize, ValueRule)>)
        ensures
            match index {
                Some((index, rule)) => {
                    &&& vendor_slot(attribute) == Some(index as int)
                    &&& index < 12
                    &&& vendor_rule(attribute) is Some
                    &&& (vendor_rule(attribute)->0).1 == rule
                },
                None => vendor_slot(attribute) is None && vendor_rule(attribute) is None,
            },
    {
        match attribute {
            SQL_SOPT_SS_TEXTPTR_LOGGING => Some((0, ValueRule::OneOf(0, 1))),
            SQL_SOPT_SS_CURRENT_COMMAND => Some((1, ValueRule::GetOnly)),
            SQL_SOPT_SS_HIDDEN_COLUMNS => Some((2, ValueRule::OneOf(0, 1))),
            SQL_SOPT_SS_NOBROWSETABLE => Some((3, ValueRule::OneOf(0, 1))),
            SQL_SOPT_SS_REGIONALIZE => Some((4, ValueRule::OneOf(0, 1))),
            SQL_SOPT_SS_CURSOR_OPTIONS => Some((5, ValueRule::Range(0, SQL_CO_MAX))),
            SQL_SOPT_SS_NOCOUNT_STATUS => Some((6, ValueRule::GetOnly)),
            SQL_SOPT_SS_DEFER_PREPARE => Some((7, ValueRule::OneOf(0, 1))),
            SQL_SOPT_SS_QUERYNOTIFICATION_TIMEOUT => Some((8, ValueRule::Range(1, SQL_QN_TIMEOUT_MAX))),
            SQL_SOPT_SS_PARAM_FOCUS => Some((9, ValueRule::Rejected)),
            SQL_SOPT_SS_NAME_SCOPE => Some((10, ValueRule::Range(0, SQL_SS_NAME_SCOPE_MAX))),
            SQL_SOPT_SS_COLUMN_ENCRYPTION => Some((11, ValueRule::Rejected)),
            _ => None,
        }
    }

    /// Whether an attribute is one of the vendor's that can be set at all.
    pub fn is_settable(attribute: SqlInteger) -> (settable: bool)
        ensures
            settable == can_be_set(attribute),
    {
        match Self::index_of(attribute) {
            Some((_, rule)) => !matches!(rule, ValueRule::GetOnly),
            None => false,
        }
    }

    /// The value of an attribute, where it is one of the vendor's.
    pub fn get(&self, attribute: SqlInteger) -> (value: Option<SqlULen>)
        ensures
            value == self.value(attribute),
            value is Some <==> vendor_rule(attribute) is Some,
    {
        match Self::index_of(attribute) {
            Some((index, _)) => Some(self.values[index]),
            None => None,
        }
    }

    /// Keeps a value that the attribute's rule admits.
    pub fn set(&mut self, attribute: SqlInteger, value: SqlULen) -> (accepted: bool)
        ensures
            accepted == takes(attribute, value),
            !accepted ==> *final(self) == *old(self),
            accepted ==> final(self).value(attribute) == Some(value),
            forall|other: SqlInteger|
                other != attribute ==> #[trigger] final(self).value(other) == old(self).value(
                    other,
                ),
    {
        match Self::index_of(attribute) {
            Some((index, rule)) => {
                let accepted: bool = rule.admits(value);
                if accepted {
                    self.values[index] = value;
                }
                accepted
            },
            None => false,
        }
    }
}

impl Default for VendorStmtAttrs {
    /// Every attribute has its default.
    fn default() -> (attrs: Self)
        ensures
            forall|attribute: SqlInteger| #[trigger]
                attrs.value(attribute) == (match vendor_rule(attribute) {
                    Some((default, _)) => Some(default),
                    None => None,
                }),
    {
        VendorStmtAttrs {
            values: [
                SQL_TL_ON,
                0,
                0,
                0,
                0,
                0,
                SQL_NC_ON,
                SQL_DP_ON,
                SQL_QN_TIMEOUT_DEFAULT,
                0,
                0,
                0,
            ],
        }
    }
}

/// Attributes without effect start with zero, but for four: the cursor is
/// insensitive and found by unique values, data is retrieved, and a rowset has one
/// row.
pub proof fn inert_attributes_start_with_their_defaults(attribute: SqlInteger)
    ensures
        inert_default(SQL_ATTR_CURSOR_SENSITIVITY) == Some(SQL_INSENSITIVE),
        inert_default(SQL_ATTR_SIMULATE_CURSOR) == Some(SQL_SC_UNIQUE),
        inert_default(SQL_ATTR_RETRIEVE_DATA) == Some(SQL_RD_ON),
        inert_default(SQL_ROWSET_SIZE) == Some(1 as SqlULen),
        attribute != SQL_ATTR_CURSOR_SENSITIVITY && attribute != SQL_ATTR_SIMULATE_CURSOR
            && attribute != SQL_ATTR_RETRIEVE_DATA && attribute != SQL_ROWSET_SIZE ==> (
        inert_default(attribute) matches Some(value) ==> value == 0),
        inert_default(SQL_ATTR_NOSCAN) is Some,
        inert_default(SQL_ATTR_MAX_LENGTH) is Some,
        inert_default(SQL_ATTR_ASYNC_ENABLE) is Some,
        inert_default(SQL_ATTR_KEYSET_SIZE) is Some,
        inert_default(SQL_ATTR_USE_BOOKMARKS) is Some,
        inert_default(SQL_ATTR_ENABLE_AUTO_IPD) is Some,
        inert_default(SQL_ATTR_FETCH_BOOKMARK_PTR) is Some,
        inert_default(SQL_ATTR_PARAM_BIND_OFFSET_PTR) is Some,
        inert_default(SQL_ATTR_PARAM_BIND_TYPE) is Some,
        inert_default(SQL_ATTR_PARAM_OPERATION_PTR) is Some,
        inert_default(SQL_ATTR_PARAM_STATUS_PTR) is Some,
        inert_default(SQL_ATTR_PARAMS_PROCESSED_PTR) is Some,
        inert_default(SQL_ATTR_ROW_OPERATION_PTR) is Some,
        inert_default(SQL_ATTR_METADATA_ID) is Some,
        vendor_rule(attribute) is Some ==> inert_default(attribute) is None,
{
}

/// A rule of two values admits these two, a rule of a range its bounds and what is
/// between them, and the others nothing.
pub proof fn rules_admit_what_they_name(a: SqlULen, b: SqlULen, value: SqlULen)
    ensures
        ValueRule::OneOf(a, b).spec_admits(a),
        ValueRule::OneOf(a, b).spec_admits(b),
        value != a && value != b ==> !ValueRule::OneOf(a, b).spec_admits(value),
        a <= b ==> ValueRule::Range(a, b).spec_admits(a) && ValueRule::Range(a, b).spec_admits(b),
        a < value < b ==> ValueRule::Range(a, b).spec_admits(value),
        value < a || value > b ==> !ValueRule::Range(a, b).spec_admits(value),
        !ValueRule::Rejected.spec_admits(value),
        !ValueRule::GetOnly.spec_admits(value),
{
}

/// The vendor's switches take on and off and nothing else; the others take a range
/// of values or none at all.
pub proof fn vendor_attributes_take_their_values(value: SqlULen)
    ensures
        takes(SQL_SOPT_SS_TEXTPTR_LOGGING, value) <==> value == 0 || value == 1,
        takes(SQL_SOPT_SS_HIDDEN_COLUMNS, value) <==> value == 0 || value == 1,
        takes(SQL_SOPT_SS_NOBROWSETABLE, value) <==> value == 0 || value == 1,
        takes(SQL_SOPT_SS_REGIONALIZE, value) <==> value == 0 || value == 1,
        takes(SQL_SOPT_SS_DEFER_PREPARE, value) <==> value == 0 || value == 1,
        takes(SQL_SOPT_SS_CURSOR_OPTIONS, value) <==> value <= SQL_CO_MAX,
        takes(SQL_SOPT_SS_QUERYNOTIFICATION_TIMEOUT, value) <==> 1 <= value <= SQL_QN_TIMEOUT_MAX,
        takes(SQL_SOPT_SS_NAME_SCOPE, value) <==> value <= SQL_SS_NAME_SCOPE_MAX,
        !takes(SQL_SOPT_SS_PARAM_FOCUS, value),
        !takes(SQL_SOPT_SS_COLUMN_ENCRYPTION, value),
        !takes(SQL_SOPT_SS_CURRENT_COMMAND, value),
        !takes(SQL_SOPT_SS_NOCOUNT_STATUS, value),
{
}

/// Two of the vendor's attributes can only be read; the others are known to be set,
/// though two of these refuse every value.
pub proof fn two_vendor_attributes_are_read_only(attribute: SqlInteger)
    ensures
        !can_be_set(SQL_SOPT_SS_CURRENT_COMMAND),
        !can_be_set(SQL_SOPT_SS_NOCOUNT_STATUS),
        can_be_set(SQL_SOPT_SS_TEXTPTR_LOGGING),
        can_be_set(SQL_SOPT_SS_HIDDEN_COLUMNS),
        can_be_set(SQL_SOPT_SS_NOBROWSETABLE),
        can_be_set(SQL_SOPT_SS_REGIONALIZE),
        can_be_set(SQL_SOPT_SS_CURSOR_OPTIONS),
        can_be_set(SQL_SOPT_SS_DEFER_PREPARE),
        can_be_set(SQL_SOPT_SS_QUERYNOTIFICATION_TIMEOUT),
        can_be_set(SQL_SOPT_SS_PARAM_FOCUS),
        can_be_set(SQL_SOPT_SS_NAME_SCOPE),
        can_be_set(SQL_SOPT_SS_COLUMN_ENCRYPTION),
        inert_default(attribute) is Some ==> !can_be_set(attribute),
{
}

/// The vendor's attributes start off, but for three that start on and the timeout
/// of notifications; and each starts with a value it would take, where it takes any.
pub proof fn vendor_attributes_start_with_their_defaults(attribute: SqlInteger)
    ensures
        vendor_rule(SQL_SOPT_SS_TEXTPTR_LOGGING) is Some && (vendor_rule(
            SQL_SOPT_SS_TEXTPTR_LOGGING,
        )->0).0 == SQL_TL_ON,
        vendor_rule(SQL_SOPT_SS_NOCOUNT_STATUS) is Some && (vendor_rule(
            SQL_SOPT_SS_NOCOUNT_STATUS,
        )->0).0 == SQL_NC_ON,
        vendor_rule(SQL_SOPT_SS_DEFER_PREPARE) is Some && (vendor_rule(
            SQL_SOPT_SS_DEFER_PREPARE,
        )->0).0 == SQL_DP_ON,
        vendor_rule(SQL_SOPT_SS_QUERYNOTIFICATION_TIMEOUT) is Some && (vendor_rule(
            SQL_SOPT_SS_QUERYNOTIFICATION_TIMEOUT,
        )->0).0 == SQL_QN_TIMEOUT_DEFAULT,
        vendor_rule(attribute) matches Some(rule) && attribute != SQL_SOPT_SS_TEXTPTR_LOGGING
            && attribute != SQL_SOPT_SS_NOCOUNT_STATUS && attribute != SQL_SOPT_SS_DEFER_PREPARE
            && attribute != SQL_SOPT_SS_QUERYNOTIFICATION_TIMEOUT ==> (vendor_rule(
            attribute,
        )->0).0 == 0,
        vendor_rule(attribute) matches Some(rule) && (rule.1 is OneOf || rule.1 is Range) ==> takes(
            attribute,
            (vendor_rule(attribute)->0).0,
        ),
{
}

/// Bound parameters are moved by what stands at the offset's address; without an
/// address they are not moved.
pub proof fn without_an_address_nothing_moves(address: SqlULen, at_address: SqlLen)
    ensures
        offset_at(Some(0 as SqlULen), at_address) == 0,
        address != 0 ==> offset_at(Some(address), at_address) == at_address,
{
}

} // verus!
