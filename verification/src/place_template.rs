//! Place-order requests from pre-encoded parts.
//!
//! Of the request's 115 fields all but a few are constant: those of the
//! contract from order to order, and the tail altogether. A
//! [`ContractTemplate`] holds a contract's fields encoded once, the tail is a
//! constant, and only the order's own fields are encoded per request.

use crate::codec::{
    bool_text, encode_int, encode_payload, frame_of, frame_payload, framed, lemma_payload_concat, lemma_payload_push,
    payload, push_field, texts,
};
use crate::messages::OUT_PLACE_ORDER;
use crate::requests::{identity_fields, push_identity, push_text, ContractRequest, PlaceOrderParams};
use crate::text::int_text;
use vstd::prelude::*;
use vstd::string::*;
use vstd::utf8::*;

verus! {

/// The contract's fourteen fields: its identity and the two unused
/// security-id fields.
pub open spec fn contract_fields(c: ContractRequest) -> Seq<Seq<char>> {
    identity_fields(c) + seq![""@, ""@]
}

/// The stop price's field: unset where there is no stop price.
pub open spec fn aux_price_text(p: PlaceOrderParams) -> Seq<char> {
    if p.aux_price.value.magnitude() == 0 {
        ""@
    } else {
        p.aux_price.text@
    }
}

/// The order's own fields, in wire order.
pub open spec fn body_fields(p: PlaceOrderParams) -> Seq<Seq<char>> {
    seq![
        p.action@,
        p.total_quantity@,
        p.order_type@,
        p.lmt_price@,
        aux_price_text(p),
        p.tif@,
        ""@,  // ocaGroup
        p.account@,
        "O"@,  // openClose
        "0"@,  // origin
        p.order_ref@,
        "1"@,  // transmit
        "0"@,  // parentId
        "0"@,  // blockOrder
        "0"@,  // sweepToFill
        "0"@,  // displaySize
        "0"@,  // triggerMethod
        bool_text(p.outside_rth),
        "0"@,  // hidden
        ""@,  // sharesAllocation
        "0.0"@,  // discretionaryAmt
        ""@,  // goodAfterTime
        p.good_till_date@,
        ""@,  // faGroup
        ""@,  // faMethod
        ""@,  // faPercentage
        ""@,  // faProfile
        ""@,  // modelCode
        "0"@,  // shortSaleSlot
        ""@,  // designatedLocation
    ]
}

/// The constant tail, from the exempt code to the manual order time.
pub open spec fn trailing_fields() -> Seq<Seq<char>> {
    tail_0() + tail_1() + tail_2() + tail_3() + tail_4() + tail_5() + tail_6() + tail_7() + tail_8()
}

/// Tail fields exemptCode to eTradeOnly.
pub open spec fn tail_0() -> Seq<Seq<char>> {
    seq![
        "-1"@,  // exemptCode
        "0"@,  // ocaType
        ""@,  // rule80A
        ""@,  // settlingFirm
        "0"@,  // allOrNone
        ""@,  // minQty
        ""@,  // percentOffset
        "0"@,  // eTradeOnly
    ]
}

/// Tail fields firmQuoteOnly to stockRangeUpper.
pub open spec fn tail_1() -> Seq<Seq<char>> {
    seq![
        "0"@,  // firmQuoteOnly
        ""@,  // nbboPriceCap
        "0"@,  // auctionStrategy
        ""@,  // startingPrice
        ""@,  // stockRefPrice
        ""@,  // delta
        ""@,  // stockRangeLower
        ""@,  // stockRangeUpper
    ]
}

/// Tail fields overridePercentageConstraints to trailStopPrice.
pub open spec fn tail_2() -> Seq<Seq<char>> {
    seq![
        "0"@,  // overridePercentageConstraints
        ""@,  // volatility
        ""@,  // volatilityType
        ""@,  // deltaNeutralOrderType
        ""@,  // deltaNeutralAuxPrice
        "0"@,  // continuousUpdate
        ""@,  // referencePriceType
        ""@,  // trailStopPrice
    ]
}

/// Tail fields trailingPercent to hedgeType.
pub open spec fn tail_3() -> Seq<Seq<char>> {
    seq![
        ""@,  // trailingPercent
        ""@,  // scaleInitLevelSize
        ""@,  // scaleSubsLevelSize
        ""@,  // scalePriceIncrement
        ""@,  // scaleTable
        ""@,  // activeStartTime
        ""@,  // activeStopTime
        ""@,  // hedgeType
    ]
}

/// Tail fields optOutSmartRouting to whatIf.
pub open spec fn tail_4() -> Seq<Seq<char>> {
    seq![
        "0"@,  // optOutSmartRouting
        ""@,  // clearingAccount
        ""@,  // clearingIntent
        "0"@,  // notHeld
        "0"@,  // delta-neutral contract
        ""@,  // algoStrategy
        ""@,  // algoId
        "0"@,  // whatIf
    ]
}

/// Tail fields orderMiscOptions to lmtPriceOffset.
pub open spec fn tail_5() -> Seq<Seq<char>> {
    seq![
        ""@,  // orderMiscOptions
        "0"@,  // solicited
        "0"@,  // randomizeSize
        "0"@,  // randomizePrice
        "0"@,  // conditionsCount
        ""@,  // adjustedOrderType
        ""@,  // triggerPrice
        ""@,  // lmtPriceOffset
    ]
}

/// Tail fields adjustedStopPrice to cashQty.
pub open spec fn tail_6() -> Seq<Seq<char>> {
    seq![
        ""@,  // adjustedStopPrice
        ""@,  // adjustedStopLimitPrice
        ""@,  // adjustedTrailingAmount
        "0"@,  // adjustableTrailingUnit
        ""@,  // extOperator
        ""@,  // softDollarTier.name
        ""@,  // softDollarTier.value
        ""@,  // cashQty
    ]
}

/// Tail fields mifid2DecisionMaker to usePriceMgmtAlgo.
pub open spec fn tail_7() -> Seq<Seq<char>> {
    seq![
        ""@,  // mifid2DecisionMaker
        ""@,  // mifid2DecisionAlgo
        ""@,  // mifid2ExecutionTrader
        ""@,  // mifid2ExecutionAlgo
        "0"@,  // dontUseAutoPriceForHedge
        "0"@,  // isOmsContainer
        "0"@,  // discretionaryUpToLimitPrice
        "0"@,  // usePriceMgmtAlgo
    ]
}

/// Tail fields duration to manualOrderTime.
pub open spec fn tail_8() -> Seq<Seq<char>> {
    seq![
        ""@,  // duration
        ""@,  // postToAts
        "0"@,  // autoCancelParent
        ""@,  // advancedErrorOverride
        ""@,  // manualOrderTime
    ]
}

/// Every field of a place-order request.
pub open spec fn place_order_fields(order_id: i32, c: ContractRequest, p: PlaceOrderParams) -> Seq<Seq<char>> {
    seq![int_text(OUT_PLACE_ORDER as int), int_text(order_id as int)] + contract_fields(c) + body_fields(p)
        + trailing_fields()
}

/// A contract's fields, encoded once and reused for each of its orders.
#[derive(Debug, Clone)]
pub struct ContractTemplate {
    bytes: Vec<u8>,
}

impl ContractTemplate {
    /// The encoded fields.
    pub closed spec fn view(&self) -> Seq<u8> {
        self.bytes@
    }

    /// Encodes a contract's fields.
    pub fn from_contract(c: &ContractRequest) -> (r: ContractTemplate)
        ensures
            r@ == payload(contract_fields(*c)),
    {
        let mut f: Vec<String> = Vec::new();
        push_identity(&mut f, c);
        push_text(&mut f, ""); // secIdType
        push_text(&mut f, ""); // secId
        assert(texts(f@) =~= contract_fields(*c));
        ContractTemplate { bytes: encode_payload(&f) }
    }

    /// The encoded fields.
    pub fn as_bytes(&self) -> (r: &[u8])
        ensures
            r@ == self@,
    {
        self.bytes.as_slice()
    }
}

/// The stop price's field.
pub fn aux_price_field<'a>(params: &'a PlaceOrderParams) -> (r: &'a str)
    ensures
        r@ == aux_price_text(*params),
{
    if params.aux_price.value.abs().bits == 0 {
        ""
    } else {
        params.aux_price.text.as_str()
    }
}

/// The characters of fields, each followed by a zero character.
spec fn flat(fields: Seq<Seq<char>>) -> Seq<char>
    decreases fields.len(),
{
    if fields.len() == 0 {
        Seq::<char>::empty()
    } else {
        flat(fields.drop_last()) + fields.last() + seq!['\0']
    }
}

proof fn lemma_encode_concat(a: Seq<char>, b: Seq<char>)
    ensures
        encode_utf8(a + b) == encode_utf8(a) + encode_utf8(b),
    decreases a.len(),
{
    if a.len() == 0 {
        assert(a + b =~= b);
        assert(encode_utf8(a) + encode_utf8(b) =~= encode_utf8(b));
    } else {
        lemma_encode_concat(a.drop_first(), b);
        assert((a + b).drop_first() =~= a.drop_first() + b);
        assert((a + b)[0] == a[0]);
        assert(encode_utf8(a + b) =~= encode_utf8(a) + encode_utf8(b));
    }
}

proof fn lemma_payload_flat(fields: Seq<Seq<char>>)
    ensures
        payload(fields) == encode_utf8(flat(fields)),
    decreases fields.len(),
{
    if fields.len() > 0 {
        lemma_payload_flat(fields.drop_last());
        let a = flat(fields.drop_last());
        lemma_encode_concat(a, fields.last());
        lemma_encode_concat(a + fields.last(), seq!['\0']);
        is_ascii_chars_encode_utf8(seq!['\0']);
        assert(encode_utf8(seq!['\0']) =~= seq![0u8]);
    }
}

proof fn lemma_flat_push(fields: Seq<Seq<char>>, f: Seq<char>)
    ensures
        flat(fields.push(f)) == flat(fields) + f + seq!['\0'],
{
    assert(fields.push(f).drop_last() =~= fields);
}

proof fn lemma_flat_concat(a: Seq<Seq<char>>, b: Seq<Seq<char>>)
    ensures
        flat(a + b) == flat(a) + flat(b),
    decreases b.len(),
{
    if b.len() == 0 {
        assert(a + b =~= a);
        assert(flat(a) + flat(b) =~= flat(a));
    } else {
        lemma_flat_concat(a, b.drop_last());
        assert((a + b).drop_last() =~= a + b.drop_last());
        assert((a + b).last() == b.last());
        assert(flat(a + b) =~= flat(a) + flat(b));
    }
}

/// The constant tail of every place-order request.
pub fn trailing_bytes() -> (r: &'static [u8])
    ensures
        r@ == payload(trailing_fields()),
{
    let tail: &'static str = "-1\00\0\0\00\0\0\00\00\0\00\0\0\0\0\0\00\0\0\0\0\00\0\0\0\0\0\0\0\0\0\0\00\0\0\00\00\0\0\00\0\00\00\00\00\0\0\0\0\0\0\00\0\0\0\0\0\0\0\0\00\00\00\00\0\0\00\0\0\0";
    proof {
        lemma_trailing_text();
        lemma_payload_flat(trailing_fields());
    }
    tail.as_bytes()
}

proof fn lemma_flat_eight(a: Seq<char>, b: Seq<char>, c: Seq<char>, d: Seq<char>, e: Seq<char>, f: Seq<char>, g: Seq<char>, h: Seq<char>)
    ensures
        flat(seq![a, b, c, d, e, f, g, h]) == a + seq!['\0'] + b + seq!['\0'] + c + seq!['\0'] + d + seq!['\0'] + e
            + seq!['\0'] + f + seq!['\0'] + g + seq!['\0'] + h + seq!['\0'],
{
    let s0 = Seq::<Seq<char>>::empty();
    lemma_flat_push(s0, a);
    lemma_flat_push(seq![a], b);
    lemma_flat_push(seq![a, b], c);
    lemma_flat_push(seq![a, b, c], d);
    lemma_flat_push(seq![a, b, c, d], e);
    lemma_flat_push(seq![a, b, c, d, e], f);
    lemma_flat_push(seq![a, b, c, d, e, f], g);
    lemma_flat_push(seq![a, b, c, d, e, f, g], h);
    assert(s0.push(a) =~= seq![a]);
    assert(seq![a].push(b) =~= seq![a, b]);
    assert(seq![a, b].push(c) =~= seq![a, b, c]);
    assert(seq![a, b, c].push(d) =~= seq![a, b, c, d]);
    assert(seq![a, b, c, d].push(e) =~= seq![a, b, c, d, e]);
    assert(seq![a, b, c, d, e].push(f) =~= seq![a, b, c, d, e, f]);
    assert(seq![a, b, c, d, e, f].push(g) =~= seq![a, b, c, d, e, f, g]);
    assert(seq![a, b, c, d, e, f, g].push(h) =~= seq![a, b, c, d, e, f, g, h]);
    assert(flat(seq![a]) =~= a + seq!['\0']);
}

proof fn lemma_flat_five(a: Seq<char>, b: Seq<char>, c: Seq<char>, d: Seq<char>, e: Seq<char>)
    ensures
        flat(seq![a, b, c, d, e]) == a + seq!['\0'] + b + seq!['\0'] + c + seq!['\0'] + d + seq!['\0'] + e + seq!['\0'],
{
    let s0 = Seq::<Seq<char>>::empty();
    lemma_flat_push(s0, a);
    lemma_flat_push(seq![a], b);
    lemma_flat_push(seq![a, b], c);
    lemma_flat_push(seq![a, b, c], d);
    lemma_flat_push(seq![a, b, c, d], e);
    assert(s0.push(a) =~= seq![a]);
    assert(seq![a].push(b) =~= seq![a, b]);
    assert(seq![a, b].push(c) =~= seq![a, b, c]);
    assert(seq![a, b, c].push(d) =~= seq![a, b, c, d]);
    assert(seq![a, b, c, d].push(e) =~= seq![a, b, c, d, e]);
    assert(flat(seq![a]) =~= a + seq!['\0']);
}

proof fn lemma_tail_0()
    ensures
        flat(tail_0()) == seq!['-', '1', '\0', '0', '\0', '\0', '\0', '0', '\0', '\0', '\0', '0', '\0'],
{
    reveal_strlit("");
    reveal_strlit("0");
    reveal_strlit("-1");
    lemma_flat_eight("-1"@, "0"@, ""@, ""@, "0"@, ""@, ""@, "0"@);
    assert(flat(tail_0()) =~= seq!['-', '1', '\0', '0', '\0', '\0', '\0', '0', '\0', '\0', '\0', '0', '\0']);
}

proof fn lemma_tail_1()
    ensures
        flat(tail_1()) == seq!['0', '\0', '\0', '0', '\0', '\0', '\0', '\0', '\0', '\0'],
{
    reveal_strlit("");
    reveal_strlit("0");
    reveal_strlit("-1");
    lemma_flat_eight("0"@, ""@, "0"@, ""@, ""@, ""@, ""@, ""@);
    assert(flat(tail_1()) =~= seq!['0', '\0', '\0', '0', '\0', '\0', '\0', '\0', '\0', '\0']);
}

proof fn lemma_tail_2()
    ensures
        flat(tail_2()) == seq!['0', '\0', '\0', '\0', '\0', '\0', '0', '\0', '\0', '\0'],
{
    reveal_strlit("");
    reveal_strlit("0");
    reveal_strlit("-1");
    lemma_flat_eight("0"@, ""@, ""@, ""@, ""@, "0"@, ""@, ""@);
    assert(flat(tail_2()) =~= seq!['0', '\0', '\0', '\0', '\0', '\0', '0', '\0', '\0', '\0']);
}

proof fn lemma_tail_3()
    ensures
        flat(tail_3()) == seq!['\0', '\0', '\0', '\0', '\0', '\0', '\0', '\0'],
{
    reveal_strlit("");
    reveal_strlit("0");
    reveal_strlit("-1");
    lemma_flat_eight(""@, ""@, ""@, ""@, ""@, ""@, ""@, ""@);
    assert(flat(tail_3()) =~= seq!['\0', '\0', '\0', '\0', '\0', '\0', '\0', '\0']);
}

proof fn lemma_tail_4()
    ensures
        flat(tail_4()) == seq!['0', '\0', '\0', '\0', '0', '\0', '0', '\0', '\0', '\0', '0', '\0'],
{
    reveal_strlit("");
    reveal_strlit("0");
    reveal_strlit("-1");
    lemma_flat_eight("0"@, ""@, ""@, "0"@, "0"@, ""@, ""@, "0"@);
    assert(flat(tail_4()) =~= seq!['0', '\0', '\0', '\0', '0', '\0', '0', '\0', '\0', '\0', '0', '\0']);
}

proof fn lemma_tail_5()
    ensures
        flat(tail_5()) == seq!['\0', '0', '\0', '0', '\0', '0', '\0', '0', '\0', '\0', '\0', '\0'],
{
    reveal_strlit("");
    reveal_strlit("0");
    reveal_strlit("-1");
    lemma_flat_eight(""@, "0"@, "0"@, "0"@, "0"@, ""@, ""@, ""@);
    assert(flat(tail_5()) =~= seq!['\0', '0', '\0', '0', '\0', '0', '\0', '0', '\0', '\0', '\0', '\0']);
}

proof fn lemma_tail_6()
    ensures
        flat(tail_6()) == seq!['\0', '\0', '\0', '0', '\0', '\0', '\0', '\0', '\0'],
{
    reveal_strlit("");
    reveal_strlit("0");
    reveal_strlit("-1");
    lemma_flat_eight(""@, ""@, ""@, "0"@, ""@, ""@, ""@, ""@);
    assert(flat(tail_6()) =~= seq!['\0', '\0', '\0', '0', '\0', '\0', '\0', '\0', '\0']);
}

proof fn lemma_tail_7()
    ensures
        flat(tail_7()) == seq!['\0', '\0', '\0', '\0', '0', '\0', '0', '\0', '0', '\0', '0', '\0'],
{
    reveal_strlit("");
    reveal_strlit("0");
    reveal_strlit("-1");
    lemma_flat_eight(""@, ""@, ""@, ""@, "0"@, "0"@, "0"@, "0"@);
    assert(flat(tail_7()) =~= seq!['\0', '\0', '\0', '\0', '0', '\0', '0', '\0', '0', '\0', '0', '\0']);
}

proof fn lemma_tail_8()
    ensures
        flat(tail_8()) == seq!['\0', '\0', '0', '\0', '\0', '\0'],
{
    reveal_strlit("");
    reveal_strlit("0");
    reveal_strlit("-1");
    lemma_flat_five(""@, ""@, "0"@, ""@, ""@);
    assert(flat(tail_8()) =~= seq!['\0', '\0', '0', '\0', '\0', '\0']);
}

proof fn lemma_trailing_text()
    ensures
        flat(trailing_fields()) == "-1\00\0\0\00\0\0\00\00\0\00\0\0\0\0\0\00\0\0\0\0\00\0\0\0\0\0\0\0\0\0\0\00\0\0\00\00\0\0\00\0\00\00\00\00\0\0\0\0\0\0\00\0\0\0\0\0\0\0\0\00\00\00\00\0\0\00\0\0\0"@,
{
    reveal_strlit("-1\00\0\0\00\0\0\00\00\0\00\0\0\0\0\0\00\0\0\0\0\00\0\0\0\0\0\0\0\0\0\0\00\0\0\00\00\0\0\00\0\00\00\00\00\0\0\0\0\0\0\00\0\0\0\0\0\0\0\0\00\00\00\00\0\0\00\0\0\0");
    lemma_tail_0();
    lemma_tail_1();
    lemma_tail_2();
    lemma_tail_3();
    lemma_tail_4();
    lemma_tail_5();
    lemma_tail_6();
    lemma_tail_7();
    lemma_tail_8();
    lemma_flat_concat(tail_0(), tail_1());
    lemma_flat_concat(tail_0() + tail_1(), tail_2());
    lemma_flat_concat(tail_0() + tail_1() + tail_2(), tail_3());
    lemma_flat_concat(tail_0() + tail_1() + tail_2() + tail_3(), tail_4());
    lemma_flat_concat(tail_0() + tail_1() + tail_2() + tail_3() + tail_4(), tail_5());
    lemma_flat_concat(tail_0() + tail_1() + tail_2() + tail_3() + tail_4() + tail_5(), tail_6());
    lemma_flat_concat(tail_0() + tail_1() + tail_2() + tail_3() + tail_4() + tail_5() + tail_6(), tail_7());
    lemma_flat_concat(tail_0() + tail_1() + tail_2() + tail_3() + tail_4() + tail_5() + tail_6() + tail_7(), tail_8());
    assert(flat(trailing_fields()) =~= "-1\00\0\0\00\0\0\00\00\0\00\0\0\0\0\0\00\0\0\0\0\00\0\0\0\0\0\0\0\0\0\0\00\0\0\00\00\0\0\00\0\00\00\00\00\0\0\0\0\0\0\00\0\0\0\0\0\0\0\0\00\00\00\00\0\0\00\0\0\0"@);
}

/// Encodes a place-order request from a contract's template and the order's
/// own fields.
pub fn place_order_fast(order_id: i32, template: &ContractTemplate, params: &PlaceOrderParams) -> (r: Vec<u8>)
    ensures
        forall|c: ContractRequest| template@ == #[trigger] payload(contract_fields(c)) ==> r@ == frame_of(
            place_order_fields(order_id, c, *params),
        ),
        r@ == framed(
            payload(seq![int_text(OUT_PLACE_ORDER as int), int_text(order_id as int)]) + template@ + payload(
                body_fields(*params),
            ) + payload(trailing_fields()),
        ),
{
    let ghost head = seq![int_text(OUT_PLACE_ORDER as int), int_text(order_id as int)];
    let mut buf: Vec<u8> = Vec::new();
    push_field(&mut buf, encode_int(OUT_PLACE_ORDER).as_str());
    push_field(&mut buf, encode_int(order_id).as_str());
    proof {
        lemma_payload_push(Seq::<Seq<char>>::empty(), int_text(OUT_PLACE_ORDER as int));
        lemma_payload_push(seq![int_text(OUT_PLACE_ORDER as int)], int_text(order_id as int));
        assert(head =~= seq![int_text(OUT_PLACE_ORDER as int)].push(int_text(order_id as int)));
        assert(buf@ =~= payload(head));
    }
    buf.extend_from_slice(template.as_bytes());
    let ghost before = buf@;
    assert(before =~= payload(head) + template@);
    let mut out = OrderBody::new(buf);
    out.field(params.action.as_str());
    out.field(params.total_quantity.as_str());
    out.field(params.order_type.as_str());
    out.field(params.lmt_price.as_str());
    out.field(aux_price_field(params));
    out.field(params.tif.as_str());
    out.field(""); // ocaGroup
    out.field(params.account.as_str());
    out.field("O"); // openClose
    out.field("0"); // origin
    out.field(params.order_ref.as_str());
    out.field("1"); // transmit
    out.field("0"); // parentId
    out.field("0"); // blockOrder
    out.field("0"); // sweepToFill
    out.field("0"); // displaySize
    out.field("0"); // triggerMethod
    out.field(if params.outside_rth {
        "1"
    } else {
        "0"
    });
    out.field("0"); // hidden
    out.field(""); // sharesAllocation
    out.field("0.0"); // discretionaryAmt
    out.field(""); // goodAfterTime
    out.field(params.good_till_date.as_str());
    out.field(""); // faGroup
    out.field(""); // faMethod
    out.field(""); // faPercentage
    out.field(""); // faProfile
    out.field(""); // modelCode
    out.field("0"); // shortSaleSlot
    out.field(""); // designatedLocation
    assert(out.written@ =~= body_fields(*params));
    let mut buf = out.bytes;
    buf.extend_from_slice(trailing_bytes());
    proof {
        assert(buf@ =~= payload(head) + template@ + payload(body_fields(*params)) + payload(trailing_fields()));
        assert forall|c: ContractRequest| template@ == #[trigger] payload(contract_fields(c)) implies buf@
            == payload(place_order_fields(order_id, c, *params)) by {
            lemma_payload_concat(head, contract_fields(c));
            lemma_payload_concat(head + contract_fields(c), body_fields(*params));
            lemma_payload_concat(head + contract_fields(c) + body_fields(*params), trailing_fields());
        }
    }
    frame_payload(&buf)
}

/// A buffer that remembers which fields were added to it.
struct OrderBody {
    bytes: Vec<u8>,
    start: Ghost<Seq<u8>>,
    written: Ghost<Seq<Seq<char>>>,
}

impl OrderBody {
    spec fn wf(self) -> bool {
        self.bytes@ == self.start@ + payload(self.written@)
    }

    fn new(bytes: Vec<u8>) -> (r: OrderBody)
        ensures
            r.wf(),
            r.start@ == bytes@,
            r.written@ == Seq::<Seq<char>>::empty(),
    {
        let r = OrderBody { start: Ghost(bytes@), written: Ghost(Seq::empty()), bytes };
        assert(r.bytes@ =~= r.start@ + payload(r.written@));
        r
    }

    fn field(&mut self, s: &str)
        requires
            old(self).wf(),
        ensures
            final(self).wf(),
            final(self).start == old(self).start,
            final(self).written@ == old(self).written@.push(s@),
    {
        push_field(&mut self.bytes, s);
        proof {
            lemma_payload_push(self.written@, s@);
        }
        self.written = Ghost(self.written@.push(s@));
        assert(self.bytes@ =~= self.start@ + payload(self.written@));
    }
}

/// Encoding through a template gives the same bytes as encoding field by
/// field: a request does not depend on which of the two built it.
pub proof fn law_template_matches_field_by_field(order_id: i32, c: ContractRequest, p: PlaceOrderParams)
    ensures
        framed(
            payload(seq![int_text(OUT_PLACE_ORDER as int), int_text(order_id as int)]) + payload(
                contract_fields(c),
            ) + payload(body_fields(p)) + payload(trailing_fields()),
        ) == frame_of(place_order_fields(order_id, c, p)),
{
    let head = seq![int_text(OUT_PLACE_ORDER as int), int_text(order_id as int)];
    lemma_payload_concat(head, contract_fields(c));
    lemma_payload_concat(head + contract_fields(c), body_fields(p));
    lemma_payload_concat(head + contract_fields(c) + body_fields(p), trailing_fields());
}

} // verus!
