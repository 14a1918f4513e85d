//! Encoders of the requests sent to the gateway.
//!
//! The gateway reads fields by position, so each request is stated as the
//! exact list of its fields.

use crate::codec::{
    bool_text, encode_bool, encode_int, encode_int64, encode_owned, frame_of, frame_payload, framed,
    law_flags_are_digits, texts,
};
use crate::api::Decimal;
use crate::messages::{
    OUT_CANCEL_MKT_DATA, OUT_CANCEL_ORDER, OUT_CANCEL_POSITIONS, OUT_PLACE_ORDER, OUT_REQ_ACCT_DATA,
    OUT_REQ_ALL_OPEN_ORDERS, OUT_REQ_AUTO_OPEN_ORDERS, OUT_REQ_CONTRACT_DATA, OUT_REQ_EXECUTIONS, OUT_REQ_IDS,
    OUT_REQ_MANAGED_ACCTS, OUT_REQ_MKT_DATA, OUT_REQ_OPEN_ORDERS, OUT_REQ_POSITIONS, OUT_START_API,
};
use crate::place_template::{
    aux_price_field, body_fields, contract_fields, place_order_fields, tail_0, tail_1, tail_2, tail_3, tail_4, tail_5,
    tail_6, tail_7, tail_8, trailing_fields,
};
use crate::text::{i64_text, int_text, int_value, law_int_text_round_trip};
use vstd::prelude::*;
use vstd::string::*;
use vstd::utf8::*;

verus! {

/// The fields by which a contract is resolved, subscribed and traded.
#[derive(Debug, Clone)]
pub struct ContractRequest {
    pub con_id: i64,
    pub symbol: String,
    /// `FUT`, `OPT` or `FOP`.
    pub sec_type: String,
    /// `YYYYMMDD`.
    pub last_trade_date: String,
    /// The strike in decimal.
    pub strike: String,
    /// `C`, `P` or empty.
    pub right: String,
    pub multiplier: String,
    pub exchange: String,
    pub primary_exchange: String,
    pub currency: String,
    pub local_symbol: String,
    pub trading_class: String,
}

impl Default for ContractRequest {
    /// Every text empty, every number zero.
    fn default() -> (r: ContractRequest)
        ensures
            r.con_id == 0,
            contract_fields(r) == seq![
                int_text(0), ""@, ""@, ""@, "0.0"@, ""@, ""@, ""@, ""@, ""@, ""@, ""@, ""@, ""@,
            ],
    {
        proof {
            reveal_strlit("");
        }
        let r = ContractRequest {
            con_id: 0,
            symbol: String::new(),
            sec_type: String::new(),
            last_trade_date: String::new(),
            strike: "0.0".to_owned(),
            right: String::new(),
            multiplier: String::new(),
            exchange: String::new(),
            primary_exchange: String::new(),
            currency: String::new(),
            local_symbol: String::new(),
            trading_class: String::new(),
        };
        assert(""@ =~= Seq::<char>::empty());
        r
    }
}

/// What varies from order to order.
#[derive(Debug, Clone)]
pub struct PlaceOrderParams {
    /// `BUY` or `SELL`.
    pub action: String,
    /// The magnitude of the quantity, in decimal.
    pub total_quantity: String,
    /// `LMT`, `MKT` or `STP LMT`.
    pub order_type: String,
    /// The limit price in decimal; `0.0` for a market order.
    pub lmt_price: String,
    /// The stop price; zero where there is none.
    pub aux_price: Decimal,
    /// `DAY`, `GTD`, `IOC`, `GTC` or `FOK`.
    pub tif: String,
    /// `YYYYMMDD HH:MM:SS UTC` for a `GTD` order, else empty.
    pub good_till_date: String,
    pub account: String,
    pub order_ref: String,
    pub outside_rth: bool,
}

/// Which executions to report.
#[derive(Debug, Clone)]
pub struct ExecutionFilter {
    pub client_id: i32,
    pub account: String,
    /// `yyyymmdd-hh:mm:ss`, or empty for all.
    pub time: String,
    pub symbol: String,
    pub sec_type: String,
    pub exchange: String,
    pub side: String,
}

impl ExecutionFilter {
    /// The filter's fields in wire order.
    pub open spec fn fields(self) -> Seq<Seq<char>> {
        seq![
            int_text(self.client_id as int),
            self.account@,
            self.time@,
            self.symbol@,
            self.sec_type@,
            self.exchange@,
            self.side@,
        ]
    }
}

impl Default for ExecutionFilter {
    /// Every execution of client 0.
    fn default() -> (r: ExecutionFilter)
        ensures
            r.fields() == seq![int_text(0), ""@, ""@, ""@, ""@, ""@, ""@],
    {
        proof {
            reveal_strlit("");
        }
        let r = ExecutionFilter {
            client_id: 0,
            account: String::new(),
            time: String::new(),
            symbol: String::new(),
            sec_type: String::new(),
            exchange: String::new(),
            side: String::new(),
        };
        assert(""@ =~= Seq::<char>::empty());
        r
    }
}

/// Appends a field's text.
pub fn push_text(fields: &mut Vec<String>, s: &str)
    ensures
        texts(final(fields)@) == texts(old(fields)@).push(s@),
{
    fields.push(s.to_owned());
    assert(texts(fields@) =~= texts(old(fields)@).push(s@));
}

/// Appends an integer field.
pub fn push_int(fields: &mut Vec<String>, v: i32)
    ensures
        texts(final(fields)@) == texts(old(fields)@).push(int_text(v as int)),
{
    fields.push(encode_int(v));
    assert(texts(fields@) =~= texts(old(fields)@).push(int_text(v as int)));
}

/// Appends a boolean field.
pub fn push_bool(fields: &mut Vec<String>, b: bool)
    ensures
        texts(final(fields)@) == texts(old(fields)@).push(bool_text(b)),
{
    fields.push(encode_bool(b));
    assert(texts(fields@) =~= texts(old(fields)@).push(bool_text(b)));
}

/// The message made of a type id and fields.
pub(crate) fn frame(fields: &Vec<String>) -> (r: Vec<u8>)
    ensures
        r@ == frame_of(texts(fields@)),
{
    encode_owned(fields)
}

/// A message of two fields: its type id and version 1.
fn bare_request(type_id: i32) -> (r: Vec<u8>)
    ensures
        r@ == frame_of(seq![int_text(type_id as int), "1"@]),
{
    let mut f: Vec<String> = Vec::new();
    push_int(&mut f, type_id);
    push_text(&mut f, "1");
    assert(texts(f@) =~= seq![int_text(type_id as int), "1"@]);
    frame(&f)
}

/// Starts or stops the stream of an account's values.
pub fn req_account_updates(subscribe: bool, account: &str) -> (r: Vec<u8>)
    ensures
        r@ == frame_of(seq![int_text(OUT_REQ_ACCT_DATA as int), "2"@, bool_text(subscribe), account@]),
{
    let mut f: Vec<String> = Vec::new();
    push_int(&mut f, OUT_REQ_ACCT_DATA);
    push_text(&mut f, "2");
    push_bool(&mut f, subscribe);
    push_text(&mut f, account);
    assert(texts(f@) =~= seq![int_text(OUT_REQ_ACCT_DATA as int), "2"@, bool_text(subscribe), account@]);
    frame(&f)
}

/// Asks for every position.
pub fn req_positions() -> (r: Vec<u8>)
    ensures
        r@ == frame_of(seq![int_text(OUT_REQ_POSITIONS as int), "1"@]),
{
    bare_request(OUT_REQ_POSITIONS)
}

/// Stops the stream of positions.
pub fn cancel_positions() -> (r: Vec<u8>)
    ensures
        r@ == frame_of(seq![int_text(OUT_CANCEL_POSITIONS as int), "1"@]),
{
    bare_request(OUT_CANCEL_POSITIONS)
}

/// Asks for this client's open orders.
pub fn req_open_orders() -> (r: Vec<u8>)
    ensures
        r@ == frame_of(seq![int_text(OUT_REQ_OPEN_ORDERS as int), "1"@]),
{
    bare_request(OUT_REQ_OPEN_ORDERS)
}

/// Asks for the open orders of all clients.
pub fn req_all_open_orders() -> (r: Vec<u8>)
    ensures
        r@ == frame_of(seq![int_text(OUT_REQ_ALL_OPEN_ORDERS as int), "1"@]),
{
    bare_request(OUT_REQ_ALL_OPEN_ORDERS)
}

/// Asks for orders placed by hand to be bound to this client.
pub fn req_auto_open_orders(auto_bind: bool) -> (r: Vec<u8>)
    ensures
        r@ == frame_of(seq![int_text(OUT_REQ_AUTO_OPEN_ORDERS as int), "1"@, bool_text(auto_bind)]),
{
    let mut f: Vec<String> = Vec::new();
    push_int(&mut f, OUT_REQ_AUTO_OPEN_ORDERS);
    push_text(&mut f, "1");
    push_bool(&mut f, auto_bind);
    assert(texts(f@) =~= seq![int_text(OUT_REQ_AUTO_OPEN_ORDERS as int), "1"@, bool_text(auto_bind)]);
    frame(&f)
}

/// Asks for the accounts that this login manages.
pub fn req_managed_accounts() -> (r: Vec<u8>)
    ensures
        r@ == frame_of(seq![int_text(OUT_REQ_MANAGED_ACCTS as int), "1"@]),
{
    bare_request(OUT_REQ_MANAGED_ACCTS)
}

/// Asks for the next valid order id.
pub fn req_ids(num: i32) -> (r: Vec<u8>)
    ensures
        r@ == frame_of(seq![int_text(OUT_REQ_IDS as int), "1"@, int_text(num as int)]),
{
    let mut f: Vec<String> = Vec::new();
    push_int(&mut f, OUT_REQ_IDS);
    push_text(&mut f, "1");
    push_int(&mut f, num);
    assert(texts(f@) =~= seq![int_text(OUT_REQ_IDS as int), "1"@, int_text(num as int)]);
    frame(&f)
}

/// The twelve fields that identify a contract, in wire order.
pub open spec fn identity_fields(c: ContractRequest) -> Seq<Seq<char>> {
    seq![
        int_text(c.con_id as int),
        c.symbol@,
        c.sec_type@,
        c.last_trade_date@,
        c.strike@,
        c.right@,
        c.multiplier@,
        c.exchange@,
        c.primary_exchange@,
        c.currency@,
        c.local_symbol@,
        c.trading_class@,
    ]
}

/// Appends the twelve fields that identify a contract.
pub fn push_identity(fields: &mut Vec<String>, c: &ContractRequest)
    ensures
        texts(final(fields)@) == texts(old(fields)@) + identity_fields(*c),
{
    let ghost before = texts(fields@);
    push_text(fields, encode_int64(c.con_id).as_str());
    push_text(fields, c.symbol.as_str());
    push_text(fields, c.sec_type.as_str());
    push_text(fields, c.last_trade_date.as_str());
    push_text(fields, c.strike.as_str());
    push_text(fields, c.right.as_str());
    push_text(fields, c.multiplier.as_str());
    push_text(fields, c.exchange.as_str());
    push_text(fields, c.primary_exchange.as_str());
    push_text(fields, c.currency.as_str());
    push_text(fields, c.local_symbol.as_str());
    push_text(fields, c.trading_class.as_str());
    assert(texts(fields@) =~= before + identity_fields(*c));
}

/// The fields of a contract-details request.
pub open spec fn contract_details_fields(req_id: i32, c: ContractRequest) -> Seq<Seq<char>> {
    seq![int_text(OUT_REQ_CONTRACT_DATA as int), "8"@, int_text(req_id as int)] + identity_fields(c) + seq![
        bool_text(false),
        ""@,
        ""@,
        ""@,
    ]
}

/// Asks for the contracts that match the given fields.
pub fn req_contract_details(req_id: i32, c: &ContractRequest) -> (r: Vec<u8>)
    ensures
        r@ == frame_of(contract_details_fields(req_id, *c)),
{
    let mut f: Vec<String> = Vec::new();
    push_int(&mut f, OUT_REQ_CONTRACT_DATA);
    push_text(&mut f, "8");
    push_int(&mut f, req_id);
    push_identity(&mut f, c);
    // includeExpired, secIdType, secId, issuerId
    push_bool(&mut f, false);
    push_text(&mut f, "");
    push_text(&mut f, "");
    push_text(&mut f, "");
    assert(texts(f@) =~= contract_details_fields(req_id, *c));
    frame(&f)
}

/// The fields of a market-data request.
pub open spec fn market_data_fields(
    req_id: i32,
    c: ContractRequest,
    generic_tick_list: Seq<char>,
    snapshot: bool,
    regulatory_snapshot: bool,
) -> Seq<Seq<char>> {
    seq![int_text(OUT_REQ_MKT_DATA as int), "11"@, int_text(req_id as int)] + identity_fields(c) + seq![
        ""@,
        generic_tick_list,
        bool_text(snapshot),
        bool_text(regulatory_snapshot),
        ""@,
    ]
}

/// Subscribes to a contract's ticks, or asks for one snapshot of them.
pub fn req_mkt_data(
    req_id: i32,
    c: &ContractRequest,
    generic_tick_list: &str,
    snapshot: bool,
    regulatory_snapshot: bool,
) -> (r: Vec<u8>)
    ensures
        r@ == frame_of(market_data_fields(req_id, *c, generic_tick_list@, snapshot, regulatory_snapshot)),
{
    let mut f: Vec<String> = Vec::new();
    push_int(&mut f, OUT_REQ_MKT_DATA);
    push_text(&mut f, "11");
    push_int(&mut f, req_id);
    push_identity(&mut f, c);
    // delta-neutral contract
    push_text(&mut f, "");
    push_text(&mut f, generic_tick_list);
    push_bool(&mut f, snapshot);
    push_bool(&mut f, regulatory_snapshot);
    // options of the subscription
    push_text(&mut f, "");
    assert(texts(f@) =~= market_data_fields(req_id, *c, generic_tick_list@, snapshot, regulatory_snapshot));
    frame(&f)
}

/// Ends a subscription.
pub fn cancel_mkt_data(req_id: i32) -> (r: Vec<u8>)
    ensures
        r@ == frame_of(seq![int_text(OUT_CANCEL_MKT_DATA as int), "2"@, int_text(req_id as int)]),
{
    let mut f: Vec<String> = Vec::new();
    push_int(&mut f, OUT_CANCEL_MKT_DATA);
    push_text(&mut f, "2");
    push_int(&mut f, req_id);
    assert(texts(f@) =~= seq![int_text(OUT_CANCEL_MKT_DATA as int), "2"@, int_text(req_id as int)]);
    frame(&f)
}

/// Cancels an order. The last field is the time of a cancel by hand.
pub fn cancel_order(order_id: i32) -> (r: Vec<u8>)
    ensures
        r@ == frame_of(seq![int_text(OUT_CANCEL_ORDER as int), "1"@, int_text(order_id as int), ""@]),
{
    let mut f: Vec<String> = Vec::new();
    push_int(&mut f, OUT_CANCEL_ORDER);
    push_text(&mut f, "1");
    push_int(&mut f, order_id);
    push_text(&mut f, "");
    assert(texts(f@) =~= seq![int_text(OUT_CANCEL_ORDER as int), "1"@, int_text(order_id as int), ""@]);
    frame(&f)
}

/// Asks for past executions.
pub fn req_executions(req_id: i32, filter: &ExecutionFilter) -> (r: Vec<u8>)
    ensures
        r@ == frame_of(
            seq![int_text(OUT_REQ_EXECUTIONS as int), "3"@, int_text(req_id as int)] + filter.fields(),
        ),
{
    let mut f: Vec<String> = Vec::new();
    push_int(&mut f, OUT_REQ_EXECUTIONS);
    push_text(&mut f, "3");
    push_int(&mut f, req_id);
    push_int(&mut f, filter.client_id);
    push_text(&mut f, filter.account.as_str());
    push_text(&mut f, filter.time.as_str());
    push_text(&mut f, filter.symbol.as_str());
    push_text(&mut f, filter.sec_type.as_str());
    push_text(&mut f, filter.exchange.as_str());
    push_text(&mut f, filter.side.as_str());
    assert(texts(f@) =~= seq![int_text(OUT_REQ_EXECUTIONS as int), "3"@, int_text(req_id as int)]
        + filter.fields());
    frame(&f)
}

/// Asks the gateway to start its streams, without optional capabilities.
pub fn start_api(client_id: i32) -> (r: Vec<u8>)
    ensures
        r@ == frame_of(seq![int_text(OUT_START_API as int), "2"@, int_text(client_id as int), ""@]),
{
    let mut f: Vec<String> = Vec::new();
    push_int(&mut f, OUT_START_API);
    push_text(&mut f, "2");
    push_int(&mut f, client_id);
    push_text(&mut f, "");
    assert(texts(f@) =~= seq![int_text(OUT_START_API as int), "2"@, int_text(client_id as int), ""@]);
    frame(&f)
}

/// Appends the order's own fields.
fn push_order_body(f: &mut Vec<String>, params: &PlaceOrderParams)
    ensures
        texts(final(f)@) == texts(old(f)@) + body_fields(*params),
{
    let ghost head = texts(f@);
    push_text(f, params.action.as_str());
    push_text(f, params.total_quantity.as_str());
    push_text(f, params.order_type.as_str());
    push_text(f, params.lmt_price.as_str());
    push_text(f, aux_price_field(params));
    push_text(f, params.tif.as_str());
    push_text(f, ""); // ocaGroup
    push_text(f, params.account.as_str());
    push_text(f, "O"); // openClose
    push_text(f, "0"); // origin
    push_text(f, params.order_ref.as_str());
    push_text(f, "1"); // transmit
    push_text(f, "0"); // parentId
    push_text(f, "0"); // blockOrder
    push_text(f, "0"); // sweepToFill
    push_text(f, "0"); // displaySize
    push_text(f, "0"); // triggerMethod
    push_bool(f, params.outside_rth);
    push_text(f, "0"); // hidden
    push_text(f, ""); // sharesAllocation
    push_text(f, "0.0"); // discretionaryAmt
    push_text(f, ""); // goodAfterTime
    push_text(f, params.good_till_date.as_str());
    push_text(f, ""); // faGroup
    push_text(f, ""); // faMethod
    push_text(f, ""); // faPercentage
    push_text(f, ""); // faProfile
    push_text(f, ""); // modelCode
    push_text(f, "0"); // shortSaleSlot
    push_text(f, ""); // designatedLocation
    assert(texts(f@) =~= head + body_fields(*params));
}

fn push_tail_0(f: &mut Vec<String>)
    ensures
        texts(final(f)@) == texts(old(f)@) + tail_0(),
{
    let ghost head = texts(f@);
    push_text(f, "-1"); // exemptCode
    push_text(f, "0"); // ocaType
    push_text(f, ""); // rule80A
    push_text(f, ""); // settlingFirm
    push_text(f, "0"); // allOrNone
    push_text(f, ""); // minQty
    push_text(f, ""); // percentOffset
    push_text(f, "0"); // eTradeOnly
    assert(texts(f@) =~= head + tail_0());
}

fn push_tail_1(f: &mut Vec<String>)
    ensures
        texts(final(f)@) == texts(old(f)@) + tail_1(),
{
    let ghost head = texts(f@);
    push_text(f, "0"); // firmQuoteOnly
    push_text(f, ""); // nbboPriceCap
    push_text(f, "0"); // auctionStrategy
    push_text(f, ""); // startingPrice
    push_text(f, ""); // stockRefPrice
    push_text(f, ""); // delta
    push_text(f, ""); // stockRangeLower
    push_text(f, ""); // stockRangeUpper
    assert(texts(f@) =~= head + tail_1());
}

fn push_tail_2(f: &mut Vec<String>)
    ensures
        texts(final(f)@) == texts(old(f)@) + tail_2(),
{
    let ghost head = texts(f@);
    push_text(f, "0"); // overridePercentageConstraints
    push_text(f, ""); // volatility
    push_text(f, ""); // volatilityType
    push_text(f, ""); // deltaNeutralOrderType
    push_text(f, ""); // deltaNeutralAuxPrice
    push_text(f, "0"); // continuousUpdate
    push_text(f, ""); // referencePriceType
    push_text(f, ""); // trailStopPrice
    assert(texts(f@) =~= head + tail_2());
}

fn push_tail_3(f: &mut Vec<String>)
    ensures
        texts(final(f)@) == texts(old(f)@) + tail_3(),
{
    let ghost head = texts(f@);
    push_text(f, ""); // trailingPercent
    push_text(f, ""); // scaleInitLevelSize
    push_text(f, ""); // scaleSubsLevelSize
    push_text(f, ""); // scalePriceIncrement
    push_text(f, ""); // scaleTable
    push_text(f, ""); // activeStartTime
    push_text(f, ""); // activeStopTime
    push_text(f, ""); // hedgeType
    assert(texts(f@) =~= head + tail_3());
}

fn push_tail_4(f: &mut Vec<String>)
    ensures
        texts(final(f)@) == texts(old(f)@) + tail_4(),
{
    let ghost head = texts(f@);
    push_text(f, "0"); // optOutSmartRouting
    push_text(f, ""); // clearingAccount
    push_text(f, ""); // clearingIntent
    push_text(f, "0"); // notHeld
    push_text(f, "0"); // delta-neutral contract
    push_text(f, ""); // algoStrategy
    push_text(f, ""); // algoId
    push_text(f, "0"); // whatIf
    assert(texts(f@) =~= head + tail_4());
}

fn push_tail_5(f: &mut Vec<String>)
    ensures
        texts(final(f)@) == texts(old(f)@) + tail_5(),
{
    let ghost head = texts(f@);
    push_text(f, ""); // orderMiscOptions
    push_text(f, "0"); // solicited
    push_text(f, "0"); // randomizeSize
    push_text(f, "0"); // randomizePrice
    push_text(f, "0"); // conditionsCount
    push_text(f, ""); // adjustedOrderType
    push_text(f, ""); // triggerPrice
    push_text(f, ""); // lmtPriceOffset
    assert(texts(f@) =~= head + tail_5());
}

fn push_tail_6(f: &mut Vec<String>)
    ensures
        texts(final(f)@) == texts(old(f)@) + tail_6(),
{
    let ghost head = texts(f@);
    push_text(f, ""); // adjustedStopPrice
    push_text(f, ""); // adjustedStopLimitPrice
    push_text(f, ""); // adjustedTrailingAmount
    push_text(f, "0"); // adjustableTrailingUnit
    push_text(f, ""); // extOperator
    push_text(f, ""); // softDollarTier.name
    push_text(f, ""); // softDollarTier.value
    push_text(f, ""); // cashQty
    assert(texts(f@) =~= head + tail_6());
}

fn push_tail_7(f: &mut Vec<String>)
    ensures
        texts(final(f)@) == texts(old(f)@) + tail_7(),
{
    let ghost head = texts(f@);
    push_text(f, ""); // mifid2DecisionMaker
    push_text(f, ""); // mifid2DecisionAlgo
    push_text(f, ""); // mifid2ExecutionTrader
    push_text(f, ""); // mifid2ExecutionAlgo
    push_text(f, "0"); // dontUseAutoPriceForHedge
    push_text(f, "0"); // isOmsContainer
    push_text(f, "0"); // discretionaryUpToLimitPrice
    push_text(f, "0"); // usePriceMgmtAlgo
    assert(texts(f@) =~= head + tail_7());
}

fn push_tail_8(f: &mut Vec<String>)
    ensures
        texts(final(f)@) == texts(old(f)@) + tail_8(),
{
    let ghost head = texts(f@);
    push_text(f, ""); // duration
    push_text(f, ""); // postToAts
    push_text(f, "0"); // autoCancelParent
    push_text(f, ""); // advancedErrorOverride
    push_text(f, ""); // manualOrderTime
    assert(texts(f@) =~= head + tail_8());
}

/// Appends the constant tail.
fn push_trailing(f: &mut Vec<String>)
    ensures
        texts(final(f)@) == texts(old(f)@) + trailing_fields(),
{
    let ghost head = texts(f@);
    push_tail_0(f);
    push_tail_1(f);
    push_tail_2(f);
    push_tail_3(f);
    push_tail_4(f);
    push_tail_5(f);
    push_tail_6(f);
    push_tail_7(f);
    push_tail_8(f);
    assert(texts(f@) =~= head + trailing_fields());
}

/// Encodes a place-order request field by field. The order id comes from
/// the gateway's sequence.
pub fn place_order(order_id: i32, contract: &ContractRequest, params: &PlaceOrderParams) -> (r: Vec<u8>)
    ensures
        r@ == frame_of(place_order_fields(order_id, *contract, *params)),
{
    let mut f: Vec<String> = Vec::new();
    push_int(&mut f, OUT_PLACE_ORDER);
    push_int(&mut f, order_id);
    push_identity(&mut f, contract);
    push_text(&mut f, ""); // secIdType
    push_text(&mut f, ""); // secId
    assert(texts(f@) =~= seq![int_text(OUT_PLACE_ORDER as int), int_text(order_id as int)] + contract_fields(
        *contract,
    ));
    push_order_body(&mut f, params);
    push_trailing(&mut f);
    assert(texts(f@) =~= place_order_fields(order_id, *contract, *params));
    frame(&f)
}

// Connecting

/// How the gateway is reached.
#[derive(Debug)]
pub struct NativeClientConfig {
    pub host: String,
    pub port: u16,
    pub client_id: i32,
    pub account: Option<String>,
    pub connect_timeout_ms: u64,
    pub handshake_timeout_ms: u64,
}

impl Default for NativeClientConfig {
    fn default() -> (r: NativeClientConfig)
        ensures
            r.host@ == "127.0.0.1"@,
            r.port == 4002,
            r.client_id == 0,
            r.account is None,
            r.connect_timeout_ms == 10_000,
            r.handshake_timeout_ms == 5_000,
    {
        NativeClientConfig {
            host: "127.0.0.1".to_owned(),
            port: 4002,
            client_id: 0,
            account: None,
            connect_timeout_ms: 10_000,
            handshake_timeout_ms: 5_000,
        }
    }
}

/// How the gateway is reached, and the account to trade.
#[derive(Debug)]
pub struct NativeBrokerConfig {
    pub client: NativeClientConfig,
    pub account: String,
}

/// What is sent first: `API` and a zero byte, then the frame of the versions
/// that are understood.
pub open spec fn handshake_bytes(min: i32, max: i32) -> Seq<u8> {
    seq![65u8, 80u8, 73u8, 0u8] + framed(encode_utf8("v"@ + int_text(min as int) + ".."@ + int_text(max as int)))
}

/// What is sent first.
pub fn encode_handshake(min: i32, max: i32) -> (r: Vec<u8>)
    ensures
        r@ == handshake_bytes(min, max),
{
    let mut versions = "v".to_owned();
    versions.append(i64_text(min as i64).as_str());
    versions.append("..");
    versions.append(i64_text(max as i64).as_str());
    let mut text: Vec<u8> = Vec::new();
    text.extend_from_slice(versions.as_str().as_bytes());
    assert(text@ =~= encode_utf8(versions@));
    let body = frame_payload(&text);
    let mut out: Vec<u8> = Vec::new();
    out.push(65);
    out.push(80);
    out.push(73);
    out.push(0);
    out.extend_from_slice(body.as_slice());
    assert(out@ =~= handshake_bytes(min, max));
    out
}

/// A contract is spelt out field by field, each in its place.
pub proof fn law_contracts_are_spelt_in_order(c: ContractRequest)
    ensures
        ({
            let f = identity_fields(c);
            &&& f.len() == 12
            &&& int_value(f[0]) == Some(c.con_id as int)
            &&& f[1] == c.symbol@ && f[2] == c.sec_type@ && f[3] == c.last_trade_date@ && f[4] == c.strike@
            &&& f[5] == c.right@ && f[6] == c.multiplier@ && f[7] == c.exchange@ && f[8] == c.primary_exchange@
            &&& f[9] == c.currency@ && f[10] == c.local_symbol@ && f[11] == c.trading_class@
        }),
{
    law_int_text_round_trip(c.con_id as int);
}

/// Quotes are asked for under the request's id, for the contract as it is
/// spelt out, with the ticks that are asked for; contracts likewise.
pub proof fn law_queries_carry_their_contract(
    req_id: i32,
    c: ContractRequest,
    generic_tick_list: Seq<char>,
    snapshot: bool,
    regulatory_snapshot: bool,
)
    ensures
        ({
            let f = market_data_fields(req_id, c, generic_tick_list, snapshot, regulatory_snapshot);
            &&& int_value(f[0]) == Some(1int)
            &&& int_value(f[2]) == Some(req_id as int)
            &&& f.subrange(3, 15) == identity_fields(c)
            &&& f[16] == generic_tick_list
            &&& f[17] == "1"@ <==> snapshot
            &&& f[18] == "1"@ <==> regulatory_snapshot
        }),
        ({
            let f = contract_details_fields(req_id, c);
            &&& int_value(f[0]) == Some(9int)
            &&& int_value(f[2]) == Some(req_id as int)
            &&& f.subrange(3, 15) == identity_fields(c)
        }),
{
    law_int_text_round_trip(1);
    law_int_text_round_trip(9);
    law_int_text_round_trip(req_id as int);
    law_flags_are_digits(snapshot);
    law_flags_are_digits(regulatory_snapshot);
    let f = market_data_fields(req_id, c, generic_tick_list, snapshot, regulatory_snapshot);
    assert(f.subrange(3, 15) =~= identity_fields(c));
    assert(contract_details_fields(req_id, c).subrange(3, 15) =~= identity_fields(c));
}

} // verus!
