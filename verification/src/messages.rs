//! Message type ids and protocol versions.

use vstd::prelude::*;

verus! {

/// Outbound: req mkt data.
pub const OUT_REQ_MKT_DATA: i32 = 1;

/// Outbound: cancel mkt data.
pub const OUT_CANCEL_MKT_DATA: i32 = 2;

/// Outbound: place order.
pub const OUT_PLACE_ORDER: i32 = 3;

/// Outbound: cancel order.
pub const OUT_CANCEL_ORDER: i32 = 4;

/// Outbound: req open orders.
pub const OUT_REQ_OPEN_ORDERS: i32 = 5;

/// Outbound: req acct data.
pub const OUT_REQ_ACCT_DATA: i32 = 6;

/// Outbound: req executions.
pub const OUT_REQ_EXECUTIONS: i32 = 7;

/// Outbound: req ids.
pub const OUT_REQ_IDS: i32 = 8;

/// Outbound: req contract data.
pub const OUT_REQ_CONTRACT_DATA: i32 = 9;

/// Outbound: req auto open orders.
pub const OUT_REQ_AUTO_OPEN_ORDERS: i32 = 15;

/// Outbound: req all open orders.
pub const OUT_REQ_ALL_OPEN_ORDERS: i32 = 16;

/// Outbound: req managed accts.
pub const OUT_REQ_MANAGED_ACCTS: i32 = 17;

/// Outbound: req positions.
pub const OUT_REQ_POSITIONS: i32 = 61;

/// Outbound: cancel positions.
pub const OUT_CANCEL_POSITIONS: i32 = 64;

/// Outbound: start api.
pub const OUT_START_API: i32 = 71;

/// Inbound: tick price.
pub const IN_TICK_PRICE: i32 = 1;

/// Inbound: tick size.
pub const IN_TICK_SIZE: i32 = 2;

/// Inbound: order status.
pub const IN_ORDER_STATUS: i32 = 3;

/// Inbound: err msg.
pub const IN_ERR_MSG: i32 = 4;

/// Inbound: open order.
pub const IN_OPEN_ORDER: i32 = 5;

/// Inbound: acct value.
pub const IN_ACCT_VALUE: i32 = 6;

/// Inbound: portfolio value.
pub const IN_PORTFOLIO_VALUE: i32 = 7;

/// Inbound: acct update time.
pub const IN_ACCT_UPDATE_TIME: i32 = 8;

/// Inbound: next valid id.
pub const IN_NEXT_VALID_ID: i32 = 9;

/// Inbound: contract data.
pub const IN_CONTRACT_DATA: i32 = 10;

/// Ends the reply to a contract-details request.
pub const IN_CONTRACT_DATA_END: i32 = 52;

/// Inbound: execution data.
pub const IN_EXECUTION_DATA: i32 = 11;

/// Inbound: managed accts.
pub const IN_MANAGED_ACCTS: i32 = 15;

/// Inbound: tick option computation.
pub const IN_TICK_OPTION_COMPUTATION: i32 = 21;

/// Inbound: tick generic.
pub const IN_TICK_GENERIC: i32 = 45;

/// Inbound: tick string.
pub const IN_TICK_STRING: i32 = 46;

/// Inbound: current time.
pub const IN_CURRENT_TIME: i32 = 49;

/// Inbound: commission report.
pub const IN_COMMISSION_REPORT: i32 = 59;

/// Inbound: position data.
pub const IN_POSITION_DATA: i32 = 61;

/// Inbound: position end.
pub const IN_POSITION_END: i32 = 62;

/// Inbound: open order end.
pub const IN_OPEN_ORDER_END: i32 = 53;

/// Inbound: account download end.
pub const IN_ACCOUNT_DOWNLOAD_END: i32 = 54;

/// Inbound: execution data end.
pub const IN_EXECUTION_DATA_END: i32 = 55;

/// Inbound: tick req params.
pub const IN_TICK_REQ_PARAMS: i32 = 81;

/// Least server version that carries every field sent and read here.
pub const MIN_SERVER_VERSION: i32 = 176;

/// Highest version offered: the one whose place-order layout is sent.
pub const MAX_CLIENT_VERSION: i32 = 176;

} // verus!
