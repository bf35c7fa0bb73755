//! ODBC type and attribute codes.

use vstd::prelude::*;

verus! {

/// What an ODBC call returns.
pub type SqlReturn = i16;

/// A 16-bit code or count.
pub type SqlSmallInt = i16;

/// A 16-bit field identifier or column number.
pub type SqlUSmallInt = u16;

/// A 32-bit attribute identifier.
pub type SqlInteger = i32;

/// The address of an application buffer; zero stands for none.
pub type SqlPointer = usize;

/// A signed length.
pub type SqlLen = isize;

/// An unsigned length or attribute value.
pub type SqlULen = usize;

pub const SQL_SUCCESS: SqlReturn = 0;

pub const SQL_SUCCESS_WITH_INFO: SqlReturn = 1;

pub const SQL_NO_DATA: SqlReturn = 100;

pub const SQL_ERROR: SqlReturn = -1;

pub const SQL_INVALID_HANDLE: SqlReturn = -2;

pub const SQL_C_CHAR: SqlSmallInt = 1;

pub const SQL_C_WCHAR: SqlSmallInt = -8;

pub const SQL_C_BINARY: SqlSmallInt = -2;

pub const SQL_C_BIT: SqlSmallInt = -7;

pub const SQL_C_TINYINT: SqlSmallInt = -6;

pub const SQL_C_STINYINT: SqlSmallInt = -26;

pub const SQL_C_UTINYINT: SqlSmallInt = -28;

pub const SQL_C_SHORT: SqlSmallInt = 5;

pub const SQL_C_SSHORT: SqlSmallInt = -15;

pub const SQL_C_USHORT: SqlSmallInt = -17;

pub const SQL_C_LONG: SqlSmallInt = 4;

pub const SQL_C_SLONG: SqlSmallInt = -16;

pub const SQL_C_ULONG: SqlSmallInt = -18;

pub const SQL_C_SBIGINT: SqlSmallInt = -25;

pub const SQL_C_UBIGINT: SqlSmallInt = -27;

pub const SQL_C_FLOAT: SqlSmallInt = 7;

pub const SQL_C_DOUBLE: SqlSmallInt = 8;

pub const SQL_C_DATE: SqlSmallInt = 9;

pub const SQL_C_TIME: SqlSmallInt = 10;

pub const SQL_C_TIMESTAMP: SqlSmallInt = 11;

pub const SQL_C_TYPE_DATE: SqlSmallInt = 91;

pub const SQL_C_TYPE_TIME: SqlSmallInt = 92;

pub const SQL_C_TYPE_TIMESTAMP: SqlSmallInt = 93;

pub const SQL_C_GUID: SqlSmallInt = -11;

pub const SQL_C_NUMERIC: SqlSmallInt = 2;

pub const SQL_C_INTERVAL_YEAR: SqlSmallInt = 101;

pub const SQL_C_INTERVAL_MINUTE_TO_SECOND: SqlSmallInt = 113;

pub const SQL_C_DEFAULT: SqlSmallInt = 99;

pub const SQL_C_SS_TIME2: SqlSmallInt = 16384;

pub const SQL_C_SS_TIMESTAMPOFFSET: SqlSmallInt = 16385;

pub const SQL_C_SS_VECTOR: SqlSmallInt = 16386;

pub const SQL_CHAR: SqlSmallInt = 1;

pub const SQL_NUMERIC: SqlSmallInt = 2;

pub const SQL_DECIMAL: SqlSmallInt = 3;

pub const SQL_INTEGER: SqlSmallInt = 4;

pub const SQL_SMALLINT: SqlSmallInt = 5;

pub const SQL_FLOAT: SqlSmallInt = 6;

pub const SQL_REAL: SqlSmallInt = 7;

pub const SQL_DOUBLE: SqlSmallInt = 8;

pub const SQL_DATETIME: SqlSmallInt = 9;

pub const SQL_VARCHAR: SqlSmallInt = 12;

pub const SQL_TYPE_DATE: SqlSmallInt = 91;

pub const SQL_TYPE_TIME: SqlSmallInt = 92;

pub const SQL_TYPE_TIMESTAMP: SqlSmallInt = 93;

pub const SQL_LONGVARCHAR: SqlSmallInt = -1;

pub const SQL_BINARY: SqlSmallInt = -2;

pub const SQL_VARBINARY: SqlSmallInt = -3;

pub const SQL_LONGVARBINARY: SqlSmallInt = -4;

pub const SQL_BIGINT: SqlSmallInt = -5;

pub const SQL_TINYINT: SqlSmallInt = -6;

pub const SQL_BIT: SqlSmallInt = -7;

pub const SQL_WCHAR: SqlSmallInt = -8;

pub const SQL_WVARCHAR: SqlSmallInt = -9;

pub const SQL_WLONGVARCHAR: SqlSmallInt = -10;

pub const SQL_GUID: SqlSmallInt = -11;

pub const SQL_SS_VARIANT: SqlSmallInt = -150;

pub const SQL_SS_UDT: SqlSmallInt = -151;

pub const SQL_SS_XML: SqlSmallInt = -152;

pub const SQL_SS_TIME2: SqlSmallInt = -154;

pub const SQL_SS_TIMESTAMPOFFSET: SqlSmallInt = -155;

pub const SQL_SS_VECTOR: SqlSmallInt = -156;

pub const SQL_NULL_DATA: SqlLen = -1;

pub const SQL_DATA_AT_EXEC: SqlLen = -2;

pub const SQL_NTS: SqlLen = -3;

pub const SQL_NO_TOTAL: SqlLen = -4;

pub const SQL_DEFAULT_PARAM: SqlLen = -5;

pub const SQL_LEN_DATA_AT_EXEC_OFFSET: SqlLen = -100;

pub const SQL_PREC_BIGCHARBINARY: usize = 8000;

pub const SQL_PREC_NCHAR: usize = 4000;

pub const SQL_PREC_NTEXT: usize = 1073741823;

pub const SQL_PREC_TEXTIMAGE: usize = 2147483647;

pub const SQL_PREC_NUMERIC: usize = 38;

pub const SQL_SS_VECTOR_HEADER_SIZE: usize = 8;

pub const SQL_SS_VECTOR_ELEMENT_SIZE: usize = 4;

pub const SQL_PARAM_INPUT: SqlSmallInt = 1;

pub const SQL_NULLABLE: SqlSmallInt = 1;

pub const SQL_ROWSET_SIZE_DEFAULT: SqlULen = 1;

pub const SQL_BIND_BY_COLUMN: SqlULen = 0;

pub const SQL_DESC_ALLOC_AUTO: SqlSmallInt = 1;

pub const SQL_DESC_ALLOC_USER: SqlSmallInt = 2;

pub const SQL_DESC_CONCISE_TYPE: SqlUSmallInt = 2;

pub const SQL_DESC_ARRAY_SIZE: SqlUSmallInt = 20;

pub const SQL_DESC_ARRAY_STATUS_PTR: SqlUSmallInt = 21;

pub const SQL_DESC_BIND_OFFSET_PTR: SqlUSmallInt = 24;

pub const SQL_DESC_BIND_TYPE: SqlUSmallInt = 25;

pub const SQL_DESC_PARAMETER_TYPE: SqlUSmallInt = 33;

pub const SQL_DESC_ROWS_PROCESSED_PTR: SqlUSmallInt = 34;

pub const SQL_DESC_COUNT: SqlUSmallInt = 1001;

pub const SQL_DESC_TYPE: SqlUSmallInt = 1002;

pub const SQL_DESC_LENGTH: SqlUSmallInt = 1003;

pub const SQL_DESC_OCTET_LENGTH_PTR: SqlUSmallInt = 1004;

pub const SQL_DESC_PRECISION: SqlUSmallInt = 1005;

pub const SQL_DESC_SCALE: SqlUSmallInt = 1006;

pub const SQL_DESC_DATETIME_INTERVAL_CODE: SqlUSmallInt = 1007;

pub const SQL_DESC_NULLABLE: SqlUSmallInt = 1008;

pub const SQL_DESC_INDICATOR_PTR: SqlUSmallInt = 1009;

pub const SQL_DESC_DATA_PTR: SqlUSmallInt = 1010;

pub const SQL_DESC_NAME: SqlUSmallInt = 1011;

pub const SQL_DESC_UNNAMED: SqlUSmallInt = 1012;

pub const SQL_DESC_OCTET_LENGTH: SqlUSmallInt = 1013;

pub const SQL_DESC_ALLOC_TYPE: SqlUSmallInt = 1099;

pub const SQL_CA_SS_UDT_CATALOG_NAME: SqlUSmallInt = 1218;

pub const SQL_CA_SS_UDT_SCHEMA_NAME: SqlUSmallInt = 1219;

pub const SQL_CA_SS_UDT_TYPE_NAME: SqlUSmallInt = 1220;

pub const SQL_CA_SS_UDT_ASSEMBLY_TYPE_NAME: SqlUSmallInt = 1221;

pub const SQL_INSENSITIVE: SqlULen = 1;

pub const SQL_SC_UNIQUE: SqlULen = 2;

pub const SQL_RD_ON: SqlULen = 1;

pub const SQL_TL_ON: SqlULen = 1;

pub const SQL_NC_ON: SqlULen = 1;

pub const SQL_DP_ON: SqlULen = 1;

pub const SQL_CO_MAX: SqlULen = 4;

pub const SQL_QN_TIMEOUT_DEFAULT: SqlULen = 432000;

/// The longest notification timeout: the largest 32-bit signed value.
pub const SQL_QN_TIMEOUT_MAX: SqlULen = 2147483647;

pub const SQL_SS_NAME_SCOPE_MAX: SqlULen = 3;

pub const SQL_ATTR_CURSOR_SENSITIVITY: SqlInteger = -2;

pub const SQL_ATTR_NOSCAN: SqlInteger = 2;

pub const SQL_ATTR_MAX_LENGTH: SqlInteger = 3;

pub const SQL_ATTR_ASYNC_ENABLE: SqlInteger = 4;

pub const SQL_ATTR_KEYSET_SIZE: SqlInteger = 8;

pub const SQL_ROWSET_SIZE: SqlInteger = 9;

pub const SQL_ATTR_SIMULATE_CURSOR: SqlInteger = 10;

pub const SQL_ATTR_RETRIEVE_DATA: SqlInteger = 11;

pub const SQL_ATTR_USE_BOOKMARKS: SqlInteger = 12;

pub const SQL_ATTR_ENABLE_AUTO_IPD: SqlInteger = 15;

pub const SQL_ATTR_FETCH_BOOKMARK_PTR: SqlInteger = 16;

pub const SQL_ATTR_PARAM_BIND_OFFSET_PTR: SqlInteger = 17;

pub const SQL_ATTR_PARAM_BIND_TYPE: SqlInteger = 18;

pub const SQL_ATTR_PARAM_OPERATION_PTR: SqlInteger = 19;

pub const SQL_ATTR_PARAM_STATUS_PTR: SqlInteger = 20;

pub const SQL_ATTR_PARAMS_PROCESSED_PTR: SqlInteger = 21;

pub const SQL_ATTR_ROW_OPERATION_PTR: SqlInteger = 24;

pub const SQL_ATTR_METADATA_ID: SqlInteger = 10014;

pub const SQL_SOPT_SS_TEXTPTR_LOGGING: SqlInteger = 1225;

pub const SQL_SOPT_SS_CURRENT_COMMAND: SqlInteger = 1226;

pub const SQL_SOPT_SS_HIDDEN_COLUMNS: SqlInteger = 1227;

pub const SQL_SOPT_SS_NOBROWSETABLE: SqlInteger = 1228;

pub const SQL_SOPT_SS_REGIONALIZE: SqlInteger = 1229;

pub const SQL_SOPT_SS_CURSOR_OPTIONS: SqlInteger = 1230;

pub const SQL_SOPT_SS_NOCOUNT_STATUS: SqlInteger = 1231;

pub const SQL_SOPT_SS_DEFER_PREPARE: SqlInteger = 1232;

pub const SQL_SOPT_SS_QUERYNOTIFICATION_TIMEOUT: SqlInteger = 1233;

pub const SQL_SOPT_SS_PARAM_FOCUS: SqlInteger = 1236;

pub const SQL_SOPT_SS_NAME_SCOPE: SqlInteger = 1237;

pub const SQL_SOPT_SS_COLUMN_ENCRYPTION: SqlInteger = 1238;

pub const SQL_OV_ODBC2: u32 = 2;

pub const SQL_OV_ODBC3: u32 = 3;

pub const SQL_OV_ODBC3_80: u32 = 380;

pub const SQL_MODE_READ_WRITE: u32 = 0;

pub const SQL_TXN_READ_COMMITTED: u32 = 2;

pub const DEFAULT_PACKET_SIZE: u32 = 4096;

} // verus!
