//! Creating a payment: the request and response shapes, the JSON body
//! each is carried in, and the interpretation of the HTTP outcome.

use vstd::prelude::*;
use crate::errors::MollieError;
use crate::json::json_str;
use crate::json::skip_ws;
use crate::json::skip_json_value;
use crate::json::parse_json_string;
use crate::json::append_json_string;
use crate::json::parse_json_string_exec;
use crate::json::ws_end;

verus! {

/// An amount of money in a specific currency.
///
/// `currency` is the three-letter ISO code; `value` is the amount as a
/// fixed-point decimal string (for example `"10.00"`), formatted by the
/// caller and not validated here.
#[derive(Debug)]
pub struct Amount {
    pub currency: String,
    pub value: String,
}

/// The mathematical value of an [`Amount`]: its two strings.
pub ghost struct AmountView {
    pub currency: Seq<char>,
    pub value: Seq<char>,
}

impl View for Amount {
    type V = AmountView;

    open spec fn view(&self) -> AmountView {
        AmountView { currency: self.currency@, value: self.value@ }
    }
}

/// Metadata attached to a payment: a single caller-chosen order id.
#[derive(Debug)]
pub struct Metadata {
    pub order_id: String,
}

/// The mathematical value of a [`Metadata`].
pub ghost struct MetadataView {
    pub order_id: Seq<char>,
}

impl View for Metadata {
    type V = MetadataView;

    open spec fn view(&self) -> MetadataView {
        MetadataView { order_id: self.order_id@ }
    }
}

/// The five fields every payment document carries, on the way out and
/// on the way back.
pub ghost struct PaymentView {
    pub amount: AmountView,
    pub description: Seq<char>,
    pub redirect_url: Seq<char>,
    pub webhook_url: Seq<char>,
    pub metadata: MetadataView,
}

/// A payment to be created.  All fields are required.
#[derive(Debug)]
pub struct PaymentRequest {
    pub amount: Amount,
    pub description: String,
    pub redirect_url: String,
    pub webhook_url: String,
    pub metadata: Metadata,
}

impl View for PaymentRequest {
    type V = PaymentView;

    open spec fn view(&self) -> PaymentView {
        PaymentView {
            amount: self.amount@,
            description: self.description@,
            redirect_url: self.redirect_url@,
            webhook_url: self.webhook_url@,
            metadata: self.metadata@,
        }
    }
}

/// A successful response to a payment creation.  Mirrors the request
/// shape; the upstream API returns more fields, which are not modeled.
#[derive(Debug)]
pub struct PaymentResponse {
    pub amount: Amount,
    pub description: String,
    pub redirect_url: String,
    pub webhook_url: String,
    pub metadata: Metadata,
}

impl View for PaymentResponse {
    type V = PaymentView;

    open spec fn view(&self) -> PaymentView {
        PaymentView {
            amount: self.amount@,
            description: self.description@,
            redirect_url: self.redirect_url@,
            webhook_url: self.webhook_url@,
            metadata: self.metadata@,
        }
    }
}

/// A payment object, request- or response-shaped.
#[derive(Debug)]
pub struct Payment {
    pub amount: Amount,
    pub description: String,
    pub redirect_url: String,
    pub webhook_url: String,
    pub metadata: Metadata,
}

impl View for Payment {
    type V = PaymentView;

    open spec fn view(&self) -> PaymentView {
        PaymentView {
            amount: self.amount@,
            description: self.description@,
            redirect_url: self.redirect_url@,
            webhook_url: self.webhook_url@,
            metadata: self.metadata@,
        }
    }
}

/// The JSON document for an amount: exactly the members `currency`
/// and `value`, in that order, holding the amount's two strings.
pub open spec fn amount_json(a: AmountView) -> Seq<char> {
    seq!['{'] + json_str("currency"@) + seq![':'] + json_str(a.currency) + seq![','] + json_str(
        "value"@,
    ) + seq![':'] + json_str(a.value) + seq!['}']
}

/// The JSON document for a metadata object: exactly the member
/// `orderId`, holding the order id.
pub open spec fn metadata_json(m: MetadataView) -> Seq<char> {
    seq!['{'] + json_str("orderId"@) + seq![':'] + json_str(m.order_id) + seq!['}']
}

/// The JSON body of a payment document: exactly the members `amount`,
/// `description`, `redirectUrl`, `webhookUrl` and `metadata`, in that
/// order, each holding the corresponding field of the payment.
pub open spec fn payment_json(p: PaymentView) -> Seq<char> {
    seq!['{'] + json_str("amount"@) + seq![':'] + amount_json(p.amount) + seq![','] + json_str(
        "description"@,
    ) + seq![':'] + json_str(p.description) + seq![','] + json_str("redirectUrl"@) + seq![':']
        + json_str(p.redirect_url) + seq![','] + json_str("webhookUrl"@) + seq![':'] + json_str(
        p.webhook_url,
    ) + seq![','] + json_str("metadata"@) + seq![':'] + metadata_json(p.metadata) + seq!['}']
}

/// Appends the JSON document for an amount.
fn append_amount(out: &mut String, a: &Amount)
    ensures
        final(out)@ == old(out)@ + amount_json(a@),
{
    let ghost orig: Seq<char> = out@;
    out.push('{');
    append_json_string(out, "currency");
    out.push(':');
    append_json_string(out, a.currency.as_str());
    out.push(',');
    append_json_string(out, "value");
    out.push(':');
    append_json_string(out, a.value.as_str());
    out.push('}');
    proof {
        assert(out@ =~= orig + amount_json(a@));
    }
}

/// Appends the JSON document for a metadata object.
fn append_metadata(out: &mut String, m: &Metadata)
    ensures
        final(out)@ == old(out)@ + metadata_json(m@),
{
    let ghost orig: Seq<char> = out@;
    out.push('{');
    append_json_string(out, "orderId");
    out.push(':');
    append_json_string(out, m.order_id.as_str());
    out.push('}');
    proof {
        assert(out@ =~= orig + metadata_json(m@));
    }
}

/// The JSON body to send for a payment creation: exactly the members
/// `amount`, `description`, `redirectUrl`, `webhookUrl` and `metadata`,
/// holding the request's fields.
pub fn serialize_payment_request(req: &PaymentRequest) -> (r: String)
    ensures
        r@ == payment_json(req@),
{
    let mut out = String::new();
    out.push('{');
    append_json_string(&mut out, "amount");
    out.push(':');
    append_amount(&mut out, &req.amount);
    out.push(',');
    append_json_string(&mut out, "description");
    out.push(':');
    append_json_string(&mut out, req.description.as_str());
    out.push(',');
    append_json_string(&mut out, "redirectUrl");
    out.push(':');
    append_json_string(&mut out, req.redirect_url.as_str());
    out.push(',');
    append_json_string(&mut out, "webhookUrl");
    out.push(':');
    append_json_string(&mut out, req.webhook_url.as_str());
    out.push(',');
    append_json_string(&mut out, "metadata");
    out.push(':');
    append_metadata(&mut out, &req.metadata);
    out.push('}');
    proof {
        assert(out@ =~= payment_json(req@));
    }
    out
}

/// The members of an amount object seen so far while reading one.
pub ghost struct AmountMembers {
    pub currency: Option<Seq<char>>,
    pub value: Option<Seq<char>>,
}

/// Reads one member of an amount object into `acc`.  The member name
/// must be `currency` or `value`, and not one already seen.
pub open spec fn parse_amount_member(s: Seq<char>, acc: AmountMembers) -> Option<
    (AmountMembers, Seq<char>),
> {
    match parse_json_string(skip_ws(s)) {
        None => None,
        Some((key, r)) => {
            let r2 = skip_ws(r);
            if r2.len() == 0 || r2[0] != ':' {
                None
            } else {
                let r3 = r2.skip(1);
                if key == "currency"@ {
                    if acc.currency is Some {
                        None
                    } else {
                        match parse_json_string(skip_ws(r3)) {
                            None => None,
                            Some((v, r4)) => Some(
                                (AmountMembers { currency: Some(v), value: acc.value }, r4),
                            ),
                        }
                    }
                } else if key == "value"@ {
                    if acc.value is Some {
                        None
                    } else {
                        match parse_json_string(skip_ws(r3)) {
                            None => None,
                            Some((v, r4)) => Some(
                                (AmountMembers { currency: acc.currency, value: Some(v) }, r4),
                            ),
                        }
                    }
                } else {
                    None
                }
            }
        },
    }
}

/// Reads an amount object: `currency` and `value`, each exactly once,
/// in either order.
pub open spec fn parse_amount_object(s: Seq<char>) -> Option<(AmountView, Seq<char>)> {
    let s1 = skip_ws(s);
    if s1.len() == 0 || s1[0] != '{' {
        None
    } else {
        match parse_amount_member(s1.skip(1), AmountMembers { currency: None, value: None }) {
            None => None,
            Some((a1, r1)) => {
                let r2 = skip_ws(r1);
                if r2.len() == 0 || r2[0] != ',' {
                    None
                } else {
                    match parse_amount_member(r2.skip(1), a1) {
                        None => None,
                        Some((a2, r3)) => {
                            let r4 = skip_ws(r3);
                            if r4.len() == 0 || r4[0] != '}' {
                                None
                            } else {
                                match (a2.currency, a2.value) {
                                    (Some(c), Some(v)) => Some(
                                        (AmountView { currency: c, value: v }, r4.skip(1)),
                                    ),
                                    _ => None,
                                }
                            }
                        },
                    }
                }
            },
        }
    }
}

/// Reads a metadata object: exactly the member `orderId`.
pub open spec fn parse_metadata_object(s: Seq<char>) -> Option<(MetadataView, Seq<char>)> {
    let s1 = skip_ws(s);
    if s1.len() == 0 || s1[0] != '{' {
        None
    } else {
        match parse_json_string(skip_ws(s1.skip(1))) {
            None => None,
            Some((key, r)) => {
                if key != "orderId"@ {
                    None
                } else {
                    let r2 = skip_ws(r);
                    if r2.len() == 0 || r2[0] != ':' {
                        None
                    } else {
                        match parse_json_string(skip_ws(r2.skip(1))) {
                            None => None,
                            Some((v, r3)) => {
                                let r4 = skip_ws(r3);
                                if r4.len() == 0 || r4[0] != '}' {
                                    None
                                } else {
                                    Some((MetadataView { order_id: v }, r4.skip(1)))
                                }
                            },
                        }
                    }
                }
            },
        }
    }
}

/// The members of a payment object seen so far while reading one.
pub ghost struct PaymentMembers {
    pub amount: Option<AmountView>,
    pub description: Option<Seq<char>>,
    pub redirect_url: Option<Seq<char>>,
    pub webhook_url: Option<Seq<char>>,
    pub metadata: Option<MetadataView>,
}

/// Reads the members of a payment object, the opening brace already
/// consumed: members of the schema fill their slot in `acc`, each at
/// most once; members with any other name are skipped, whatever JSON
/// value they hold.  Ends at the closing brace.
///
/// `fuel` bounds how many members are read; the callers pass the
/// input's length, which no object can use up.
pub open spec fn parse_payment_members(
    s: Seq<char>,
    acc: PaymentMembers,
    first: bool,
    fuel: nat,
) -> Option<(PaymentMembers, Seq<char>)>
    decreases fuel, 1int,
{
    let s1 = skip_ws(s);
    if s1.len() == 0 {
        None
    } else if s1[0] == '}' {
        Some((acc, s1.skip(1)))
    } else {
        parse_one_member(s, acc, !first, fuel)
    }
}

/// Reads one member of a payment object: a comma when one is owed,
/// the member's name, and then its value by [`parse_member_value`].
pub open spec fn parse_one_member(
    s: Seq<char>,
    acc: PaymentMembers,
    after_comma: bool,
    fuel: nat,
) -> Option<(PaymentMembers, Seq<char>)>
    decreases fuel, 0int,
{
    if fuel == 0 {
        None
    } else {
        let s1 = skip_ws(s);
        if after_comma && (s1.len() == 0 || s1[0] != ',') {
            None
        } else {
            let s2 = if after_comma {
                skip_ws(s1.skip(1))
            } else {
                s1
            };
            match parse_json_string(s2) {
                None => None,
                Some(p) => parse_member_value(p.0, p.1, acc, (fuel - 1) as nat),
            }
        }
    }
}

/// Reads the colon and value of one member and the members after it.
/// A name of the schema takes its typed value and must not repeat;
/// any other name has its value skipped and kept nowhere.
pub open spec fn parse_member_value(
    key: Seq<char>,
    s: Seq<char>,
    acc: PaymentMembers,
    fuel: nat,
) -> Option<(PaymentMembers, Seq<char>)>
    decreases fuel, 2int,
{
    let r2 = skip_ws(s);
    if r2.len() == 0 || r2[0] != ':' {
        None
    } else if fuel == 0 {
        None
    } else {
        let r3 = r2.skip(1);
        let f2 = (fuel - 1) as nat;
        if key == "amount"@ {
            if acc.amount is Some {
                None
            } else {
                match parse_amount_object(r3) {
                    None => None,
                    Some(p) => parse_payment_members(
                        p.1,
                        PaymentMembers { amount: Some(p.0), ..acc },
                        false,
                        f2,
                    ),
                }
            }
        } else if key == "description"@ {
            if acc.description is Some {
                None
            } else {
                match parse_json_string(skip_ws(r3)) {
                    None => None,
                    Some(p) => parse_payment_members(
                        p.1,
                        PaymentMembers { description: Some(p.0), ..acc },
                        false,
                        f2,
                    ),
                }
            }
        } else if key == "redirectUrl"@ {
            if acc.redirect_url is Some {
                None
            } else {
                match parse_json_string(skip_ws(r3)) {
                    None => None,
                    Some(p) => parse_payment_members(
                        p.1,
                        PaymentMembers { redirect_url: Some(p.0), ..acc },
                        false,
                        f2,
                    ),
                }
            }
        } else if key == "webhookUrl"@ {
            if acc.webhook_url is Some {
                None
            } else {
                match parse_json_string(skip_ws(r3)) {
                    None => None,
                    Some(p) => parse_payment_members(
                        p.1,
                        PaymentMembers { webhook_url: Some(p.0), ..acc },
                        false,
                        f2,
                    ),
                }
            }
        } else if key == "metadata"@ {
            if acc.metadata is Some {
                None
            } else {
                match parse_metadata_object(r3) {
                    None => None,
                    Some(p) => parse_payment_members(
                        p.1,
                        PaymentMembers { metadata: Some(p.0), ..acc },
                        false,
                        f2,
                    ),
                }
            }
        } else {
            match skip_json_value(r3, r3.len()) {
                None => None,
                Some(r4) => parse_payment_members(r4, acc, false, f2),
            }
        }
    }
}

/// No member of a payment object seen yet.
pub open spec fn no_payment_members() -> PaymentMembers {
    PaymentMembers {
        amount: None,
        description: None,
        redirect_url: None,
        webhook_url: None,
        metadata: None,
    }
}

/// Reads a payment object: the five members of the schema, each
/// exactly once, in any order, with members of any other name skipped.
pub open spec fn parse_payment_object(s: Seq<char>) -> Option<(PaymentView, Seq<char>)> {
    let s1 = skip_ws(s);
    if s1.len() == 0 || s1[0] != '{' {
        None
    } else {
        match parse_payment_members(s1.skip(1), no_payment_members(), true, s.len()) {
            None => None,
            Some((a, r)) => match (a.amount, a.description, a.redirect_url, a.webhook_url, a.metadata) {
                (Some(am), Some(d), Some(ru), Some(wu), Some(m)) => Some(
                    (
                        PaymentView {
                            amount: am,
                            description: d,
                            redirect_url: ru,
                            webhook_url: wu,
                            metadata: m,
                        },
                        r,
                    ),
                ),
                _ => None,
            },
        }
    }
}


/// Reads a whole response body: a payment object with nothing but
/// whitespace after it.
pub open spec fn parse_payment_document(s: Seq<char>) -> Option<PaymentView> {
    match parse_payment_object(s) {
        None => None,
        Some((p, r)) => {
            if skip_ws(r).len() == 0 {
                Some(p)
            } else {
                None
            }
        },
    }
}

/// Whether a string holds exactly the given text.
fn string_is(a: &String, b: &str) -> (r: bool)
    ensures
        r == (a@ == b@),
{
    let bs = String::from_str(b);
    *a == bs
}

/// The members of an amount object collected while reading one.
struct AmountMembersExec {
    currency: Option<String>,
    value: Option<String>,
}

impl View for AmountMembersExec {
    type V = AmountMembers;

    closed spec fn view(&self) -> AmountMembers {
        AmountMembers {
            currency: match self.currency {
                Some(c) => Some(c@),
                None => None,
            },
            value: match self.value {
                Some(v) => Some(v@),
                None => None,
            },
        }
    }
}

/// Reads one member of an amount object, as [`parse_amount_member`] says.
fn parse_amount_member_exec(s: &str, i: usize, acc: AmountMembersExec) -> (r: Option<
    (AmountMembersExec, usize),
>)
    requires
        i <= s@.len(),
    ensures
        match r {
            Some(p) => p.1 <= s@.len() && parse_amount_member(s@.skip(i as int), acc@) == Some(
                (p.0@, s@.skip(p.1 as int)),
            ),
            None => parse_amount_member(s@.skip(i as int), acc@) is None,
        },
{
    let n: usize = s.unicode_len();
    let j0 = ws_end(s, i);
    match parse_json_string_exec(s, j0) {
        None => None,
        Some((key, j1)) => {
            let j2 = ws_end(s, j1);
            proof {
                assert(s@.skip(j2 as int).len() == n - j2);
            }
            if j2 == n {
                return None;
            }
            proof {
                assert(s@.skip(j2 as int)[0] == s@[j2 as int]);
            }
            if s.get_char(j2) != ':' {
                return None;
            }
            let j3 = j2 + 1;
            proof {
                assert(s@.skip(j2 as int).skip(1) =~= s@.skip(j3 as int));
            }
            if string_is(&key, "currency") {
                if acc.currency.is_some() {
                    return None;
                }
                let j4 = ws_end(s, j3);
                match parse_json_string_exec(s, j4) {
                    None => None,
                    Some((v, j5)) => Some(
                        (AmountMembersExec { currency: Some(v), value: acc.value }, j5),
                    ),
                }
            } else if string_is(&key, "value") {
                if acc.value.is_some() {
                    return None;
                }
                let j4 = ws_end(s, j3);
                match parse_json_string_exec(s, j4) {
                    None => None,
                    Some((v, j5)) => Some(
                        (AmountMembersExec { currency: acc.currency, value: Some(v) }, j5),
                    ),
                }
            } else {
                None
            }
        },
    }
}

/// Reads an amount object, as [`parse_amount_object`] says.
fn parse_amount_object_exec(s: &str, i: usize) -> (r: Option<(Amount, usize)>)
    requires
        i <= s@.len(),
    ensures
        match r {
            Some(p) => p.1 <= s@.len() && parse_amount_object(s@.skip(i as int)) == Some(
                (p.0@, s@.skip(p.1 as int)),
            ),
            None => parse_amount_object(s@.skip(i as int)) is None,
        },
{
    let n: usize = s.unicode_len();
    let j0 = ws_end(s, i);
    proof {
        assert(s@.skip(j0 as int).len() == n - j0);
    }
    if j0 == n {
        return None;
    }
    proof {
        assert(s@.skip(j0 as int)[0] == s@[j0 as int]);
    }
    if s.get_char(j0) != '{' {
        return None;
    }
    proof {
        assert(s@.skip(j0 as int).skip(1) =~= s@.skip(j0 as int + 1));
    }
    match parse_amount_member_exec(s, j0 + 1, AmountMembersExec { currency: None, value: None }) {
        None => None,
        Some((a1, j1)) => {
            let j2 = ws_end(s, j1);
            proof {
                assert(s@.skip(j2 as int).len() == n - j2);
            }
            if j2 == n {
                return None;
            }
            proof {
                assert(s@.skip(j2 as int)[0] == s@[j2 as int]);
            }
            if s.get_char(j2) != ',' {
                return None;
            }
            proof {
                assert(s@.skip(j2 as int).skip(1) =~= s@.skip(j2 as int + 1));
            }
            match parse_amount_member_exec(s, j2 + 1, a1) {
                None => None,
                Some((a2, j3)) => {
                    let j4 = ws_end(s, j3);
                    proof {
                        assert(s@.skip(j4 as int).len() == n - j4);
                    }
                    if j4 == n {
                        return None;
                    }
                    proof {
                        assert(s@.skip(j4 as int)[0] == s@[j4 as int]);
                    }
                    if s.get_char(j4) != '}' {
                        return None;
                    }
                    proof {
                        assert(s@.skip(j4 as int).skip(1) =~= s@.skip(j4 as int + 1));
                    }
                    match (a2.currency, a2.value) {
                        (Some(c), Some(v)) => Some((Amount { currency: c, value: v }, j4 + 1)),
                        _ => None,
                    }
                },
            }
        },
    }
}

/// Reads a metadata object, as [`parse_metadata_object`] says.
fn parse_metadata_object_exec(s: &str, i: usize) -> (r: Option<(Metadata, usize)>)
    requires
        i <= s@.len(),
    ensures
        match r {
            Some(p) => p.1 <= s@.len() && parse_metadata_object(s@.skip(i as int)) == Some(
                (p.0@, s@.skip(p.1 as int)),
            ),
            None => parse_metadata_object(s@.skip(i as int)) is None,
        },
{
    let n: usize = s.unicode_len();
    let j0 = ws_end(s, i);
    proof {
        assert(s@.skip(j0 as int).len() == n - j0);
    }
    if j0 == n {
        return None;
    }
    proof {
        assert(s@.skip(j0 as int)[0] == s@[j0 as int]);
    }
    if s.get_char(j0) != '{' {
        return None;
    }
    proof {
        assert(s@.skip(j0 as int).skip(1) =~= s@.skip(j0 as int + 1));
    }
    let j1 = ws_end(s, j0 + 1);
    match parse_json_string_exec(s, j1) {
        None => None,
        Some((key, j2)) => {
            if !string_is(&key, "orderId") {
                return None;
            }
            let j3 = ws_end(s, j2);
            proof {
                assert(s@.skip(j3 as int).len() == n - j3);
            }
            if j3 == n {
                return None;
            }
            proof {
                assert(s@.skip(j3 as int)[0] == s@[j3 as int]);
            }
            if s.get_char(j3) != ':' {
                return None;
            }
            proof {
                assert(s@.skip(j3 as int).skip(1) =~= s@.skip(j3 as int + 1));
            }
            let j4 = ws_end(s, j3 + 1);
            match parse_json_string_exec(s, j4) {
                None => None,
                Some((v, j5)) => {
                    let j6 = ws_end(s, j5);
                    proof {
                        assert(s@.skip(j6 as int).len() == n - j6);
                    }
                    if j6 == n {
                        return None;
                    }
                    proof {
                        assert(s@.skip(j6 as int)[0] == s@[j6 as int]);
                    }
                    if s.get_char(j6) != '}' {
                        return None;
                    }
                    proof {
                        assert(s@.skip(j6 as int).skip(1) =~= s@.skip(j6 as int + 1));
                    }
                    Some((Metadata { order_id: v }, j6 + 1))
                },
            }
        },
    }
}

/// The members of a payment object collected while reading one.
struct PaymentMembersExec {
    amount: Option<Amount>,
    description: Option<String>,
    redirect_url: Option<String>,
    webhook_url: Option<String>,
    metadata: Option<Metadata>,
}

impl View for PaymentMembersExec {
    type V = PaymentMembers;

    closed spec fn view(&self) -> PaymentMembers {
        PaymentMembers {
            amount: match self.amount {
                Some(a) => Some(a@),
                None => None,
            },
            description: match self.description {
                Some(d) => Some(d@),
                None => None,
            },
            redirect_url: match self.redirect_url {
                Some(u) => Some(u@),
                None => None,
            },
            webhook_url: match self.webhook_url {
                Some(u) => Some(u@),
                None => None,
            },
            metadata: match self.metadata {
                Some(m) => Some(m@),
                None => None,
            },
        }
    }
}

/// Reads a payment object's members, as [`parse_payment_members`] says.
fn parse_payment_members_exec(
    s: &str,
    i: usize,
    acc: PaymentMembersExec,
    first: bool,
    fuel: usize,
) -> (r: Option<(PaymentMembersExec, usize)>)
    requires
        i <= s@.len(),
    ensures
        match r {
            Some(p) => p.1 <= s@.len() && parse_payment_members(
                s@.skip(i as int),
                acc@,
                first,
                fuel as nat,
            ) == Some((p.0@, s@.skip(p.1 as int))),
            None => parse_payment_members(s@.skip(i as int), acc@, first, fuel as nat) is None,
        },
    decreases fuel, 1int,
{
    let n: usize = s.unicode_len();
    let j = ws_end(s, i);
    proof {
        assert(s@.skip(j as int).len() == n - j);
    }
    if j == n {
        return None;
    }
    proof {
        assert(s@.skip(j as int)[0] == s@[j as int]);
    }
    if s.get_char(j) == '}' {
        proof {
            assert(s@.skip(j as int).skip(1) =~= s@.skip(j as int + 1));
        }
        return Some((acc, j + 1));
    }
    parse_one_member_exec(s, i, acc, !first, fuel)
}

/// Reads one member of a payment object, as [`parse_one_member`] says.
fn parse_one_member_exec(
    s: &str,
    i: usize,
    acc: PaymentMembersExec,
    after_comma: bool,
    fuel: usize,
) -> (r: Option<(PaymentMembersExec, usize)>)
    requires
        i <= s@.len(),
    ensures
        match r {
            Some(p) => p.1 <= s@.len() && parse_one_member(
                s@.skip(i as int),
                acc@,
                after_comma,
                fuel as nat,
            ) == Some((p.0@, s@.skip(p.1 as int))),
            None => parse_one_member(s@.skip(i as int), acc@, after_comma, fuel as nat) is None,
        },
    decreases fuel, 0int,
{
    if fuel == 0 {
        return None;
    }
    let n: usize = s.unicode_len();
    let j1 = ws_end(s, i);
    let j2: usize;
    if after_comma {
        proof {
            assert(s@.skip(j1 as int).len() == n - j1);
        }
        if j1 == n {
            return None;
        }
        proof {
            assert(s@.skip(j1 as int)[0] == s@[j1 as int]);
        }
        if s.get_char(j1) != ',' {
            return None;
        }
        proof {
            assert(s@.skip(j1 as int).skip(1) =~= s@.skip(j1 as int + 1));
        }
        j2 = ws_end(s, j1 + 1);
    } else {
        j2 = j1;
    }
    match parse_json_string_exec(s, j2) {
        None => None,
        Some((key, j3)) => parse_member_value_exec(s, key, j3, acc, fuel - 1),
    }
}

/// Reads a member's colon and value, as [`parse_member_value`] says.
fn parse_member_value_exec(
    s: &str,
    key: String,
    i: usize,
    acc: PaymentMembersExec,
    fuel: usize,
) -> (r: Option<(PaymentMembersExec, usize)>)
    requires
        i <= s@.len(),
    ensures
        match r {
            Some(p) => p.1 <= s@.len() && parse_member_value(
                key@,
                s@.skip(i as int),
                acc@,
                fuel as nat,
            ) == Some((p.0@, s@.skip(p.1 as int))),
            None => parse_member_value(key@, s@.skip(i as int), acc@, fuel as nat) is None,
        },
    decreases fuel, 2int,
{
    let n: usize = s.unicode_len();
    let j0 = ws_end(s, i);
    proof {
        assert(s@.skip(j0 as int).len() == n - j0);
    }
    if j0 == n {
        return None;
    }
    proof {
        assert(s@.skip(j0 as int)[0] == s@[j0 as int]);
    }
    if s.get_char(j0) != ':' {
        return None;
    }
    if fuel == 0 {
        return None;
    }
    proof {
        assert(s@.skip(j0 as int).skip(1) =~= s@.skip(j0 as int + 1));
    }
    let j1 = j0 + 1;
    if string_is(&key, "amount") {
        if acc.amount.is_some() {
            return None;
        }
        match parse_amount_object_exec(s, j1) {
            None => None,
            Some((a, j2)) => parse_payment_members_exec(
                s,
                j2,
                PaymentMembersExec {
                    amount: Some(a),
                    description: acc.description,
                    redirect_url: acc.redirect_url,
                    webhook_url: acc.webhook_url,
                    metadata: acc.metadata,
                },
                false,
                fuel - 1,
            ),
        }
    } else if string_is(&key, "description") {
        if acc.description.is_some() {
            return None;
        }
        let j2 = ws_end(s, j1);
        match parse_json_string_exec(s, j2) {
            None => None,
            Some((v, j3)) => parse_payment_members_exec(
                s,
                j3,
                PaymentMembersExec {
                    amount: acc.amount,
                    description: Some(v),
                    redirect_url: acc.redirect_url,
                    webhook_url: acc.webhook_url,
                    metadata: acc.metadata,
                },
                false,
                fuel - 1,
            ),
        }
    } else if string_is(&key, "redirectUrl") {
        if acc.redirect_url.is_some() {
            return None;
        }
        let j2 = ws_end(s, j1);
        match parse_json_string_exec(s, j2) {
            None => None,
            Some((v, j3)) => parse_payment_members_exec(
                s,
                j3,
                PaymentMembersExec {
                    amount: acc.amount,
                    description: acc.description,
                    redirect_url: Some(v),
                    webhook_url: acc.webhook_url,
                    metadata: acc.metadata,
                },
                false,
                fuel - 1,
            ),
        }
    } else if string_is(&key, "webhookUrl") {
        if acc.webhook_url.is_some() {
            return None;
        }
        let j2 = ws_end(s, j1);
        match parse_json_string_exec(s, j2) {
            None => None,
            Some((v, j3)) => parse_payment_members_exec(
                s,
                j3,
                PaymentMembersExec {
                    amount: acc.amount,
                    description: acc.description,
                    redirect_url: acc.redirect_url,
                    webhook_url: Some(v),
                    metadata: acc.metadata,
                },
                false,
                fuel - 1,
            ),
        }
    } else if string_is(&key, "metadata") {
        if acc.metadata.is_some() {
            return None;
        }
        match parse_metadata_object_exec(s, j1) {
            None => None,
            Some((m, j2)) => parse_payment_members_exec(
                s,
                j2,
                PaymentMembersExec {
                    amount: acc.amount,
                    description: acc.description,
                    redirect_url: acc.redirect_url,
                    webhook_url: acc.webhook_url,
                    metadata: Some(m),
                },
                false,
                fuel - 1,
            ),
        }
    } else {
        proof {
            assert(s@.skip(j1 as int).len() == n - j1);
        }
        match crate::json::skip_json_value_exec(s, j1, n - j1) {
            None => None,
            Some(j2) => parse_payment_members_exec(s, j2, acc, false, fuel - 1),
        }
    }
}

/// Reads a payment object, as [`parse_payment_object`] says.
fn parse_payment_object_exec(s: &str, i: usize) -> (r: Option<(PaymentResponse, usize)>)
    requires
        i <= s@.len(),
    ensures
        match r {
            Some(p) => p.1 <= s@.len() && parse_payment_object(s@.skip(i as int)) == Some(
                (p.0@, s@.skip(p.1 as int)),
            ),
            None => parse_payment_object(s@.skip(i as int)) is None,
        },
{
    let n: usize = s.unicode_len();
    proof {
        assert(s@.skip(i as int).len() == n - i);
    }
    let j0 = ws_end(s, i);
    proof {
        assert(s@.skip(j0 as int).len() == n - j0);
    }
    if j0 == n {
        return None;
    }
    proof {
        assert(s@.skip(j0 as int)[0] == s@[j0 as int]);
    }
    if s.get_char(j0) != '{' {
        return None;
    }
    proof {
        assert(s@.skip(j0 as int).skip(1) =~= s@.skip(j0 as int + 1));
    }
    let acc0 = PaymentMembersExec {
        amount: None,
        description: None,
        redirect_url: None,
        webhook_url: None,
        metadata: None,
    };
    match parse_payment_members_exec(s, j0 + 1, acc0, true, n - i) {
        None => None,
        Some((a, j)) => {
            match (a.amount, a.description, a.redirect_url, a.webhook_url, a.metadata) {
                (Some(am), Some(d), Some(ru), Some(wu), Some(m)) => Some(
                    (
                        PaymentResponse {
                            amount: am,
                            description: d,
                            redirect_url: ru,
                            webhook_url: wu,
                            metadata: m,
                        },
                        j,
                    ),
                ),
                _ => None,
            }
        },
    }
}

/// Reads a whole response body into a [`PaymentResponse`].
///
/// Succeeds exactly when [`parse_payment_document`] accepts the body;
/// any other body is a deserialization error.
pub fn parse_payment_response(body: &str) -> (r: Result<PaymentResponse, MollieError>)
    ensures
        match r {
            Ok(resp) => parse_payment_document(body@) == Some(resp@),
            Err(e) => parse_payment_document(body@) is None && e is DeserializeError,
        },
{
    proof {
        assert(body@.skip(0) =~= body@);
    }
    match parse_payment_object_exec(body, 0) {
        None => Err(MollieError::DeserializeError),
        Some((p, j)) => {
            let n: usize = body.unicode_len();
            let j2 = ws_end(body, j);
            proof {
                assert(body@.skip(j2 as int).len() == n - j2);
            }
            if j2 == n {
                Ok(p)
            } else {
                Err(MollieError::DeserializeError)
            }
        },
    }
}

/// Reading a written amount object gives back the amount.
#[verifier::rlimit(100)]
pub proof fn lemma_amount_round_trip(a: AmountView, rest: Seq<char>)
    ensures
        parse_amount_object(amount_json(a) + rest) == Some((a, rest)),
{
    reveal_strlit("currency");
    reveal_strlit("value");
    let full = amount_json(a) + rest;
    let w1 = seq![':'] + json_str(a.currency) + seq![','] + json_str("value"@) + seq![':']
        + json_str(a.value) + seq!['}'] + rest;
    let w2 = seq![','] + json_str("value"@) + seq![':'] + json_str(a.value) + seq!['}'] + rest;
    let w3 = seq![':'] + json_str(a.value) + seq!['}'] + rest;
    let w4 = seq!['}'] + rest;
    assert(full[0] == '{');
    assert(skip_ws(full) == full);
    assert(full.skip(1) =~= json_str("currency"@) + w1);
    // first member: `currency`
    assert((json_str("currency"@) + w1)[0] == '"');
    assert(skip_ws(json_str("currency"@) + w1) == json_str("currency"@) + w1);
    crate::json::lemma_parse_json_str("currency"@, w1);
    assert(w1[0] == ':');
    assert(skip_ws(w1) == w1);
    assert(w1.skip(1) =~= json_str(a.currency) + w2);
    assert((json_str(a.currency) + w2)[0] == '"');
    assert(skip_ws(json_str(a.currency) + w2) == json_str(a.currency) + w2);
    crate::json::lemma_parse_json_str(a.currency, w2);
    let acc0 = AmountMembers { currency: None, value: None };
    let acc1 = AmountMembers { currency: Some(a.currency), value: None };
    assert(parse_amount_member(json_str("currency"@) + w1, acc0) == Some((acc1, w2)));
    // separator, then the second member: `value`
    assert(w2[0] == ',');
    assert(skip_ws(w2) == w2);
    assert(w2.skip(1) =~= json_str("value"@) + w3);
    assert((json_str("value"@) + w3)[0] == '"');
    assert(skip_ws(json_str("value"@) + w3) == json_str("value"@) + w3);
    crate::json::lemma_parse_json_str("value"@, w3);
    assert("value"@ != "currency"@);
    assert(w3[0] == ':');
    assert(skip_ws(w3) == w3);
    assert(w3.skip(1) =~= json_str(a.value) + w4);
    assert((json_str(a.value) + w4)[0] == '"');
    assert(skip_ws(json_str(a.value) + w4) == json_str(a.value) + w4);
    crate::json::lemma_parse_json_str(a.value, w4);
    let acc2 = AmountMembers { currency: Some(a.currency), value: Some(a.value) };
    assert(parse_amount_member(json_str("value"@) + w3, acc1) == Some((acc2, w4)));
    // closing brace
    assert(w4[0] == '}');
    assert(skip_ws(w4) == w4);
    assert(w4.skip(1) =~= rest);
    assert(parse_amount_object(full) == Some((a, rest)));
}

/// Reading a written metadata object gives back the metadata.
pub proof fn lemma_metadata_round_trip(m: MetadataView, rest: Seq<char>)
    ensures
        parse_metadata_object(metadata_json(m) + rest) == Some((m, rest)),
{
    reveal_strlit("orderId");
    let full = metadata_json(m) + rest;
    let w1 = seq![':'] + json_str(m.order_id) + seq!['}'] + rest;
    let w2 = seq!['}'] + rest;
    assert(full[0] == '{');
    assert(skip_ws(full) == full);
    assert(full.skip(1) =~= json_str("orderId"@) + w1);
    assert((json_str("orderId"@) + w1)[0] == '"');
    assert(skip_ws(json_str("orderId"@) + w1) == json_str("orderId"@) + w1);
    crate::json::lemma_parse_json_str("orderId"@, w1);
    assert(w1[0] == ':');
    assert(skip_ws(w1) == w1);
    assert(w1.skip(1) =~= json_str(m.order_id) + w2);
    assert((json_str(m.order_id) + w2)[0] == '"');
    assert(skip_ws(json_str(m.order_id) + w2) == json_str(m.order_id) + w2);
    crate::json::lemma_parse_json_str(m.order_id, w2);
    assert(w2[0] == '}');
    assert(skip_ws(w2) == w2);
    assert(w2.skip(1) =~= rest);
    assert(parse_metadata_object(full) == Some((m, rest)));
}

/// Reading a written `amount` member fills the amount slot and goes
/// on with the members after it.
proof fn lemma_member_value_amount(a: AmountView, x: Seq<char>, acc: PaymentMembers, fuel: nat)
    requires
        acc.amount is None,
        fuel >= 1,
    ensures
        parse_member_value("amount"@, seq![':'] + (amount_json(a) + x), acc, fuel)
            == parse_payment_members(
            x,
            PaymentMembers { amount: Some(a), ..acc },
            false,
            (fuel - 1) as nat,
        ),
{
    reveal_strlit("amount");
    let w = seq![':'] + (amount_json(a) + x);
    assert(w[0] == ':');
    assert(skip_ws(w) == w);
    assert(w.skip(1) =~= amount_json(a) + x);
    lemma_amount_round_trip(a, x);
}

/// Reading a written `description` member fills the description slot
/// and goes on with the members after it.
proof fn lemma_member_value_description(v: Seq<char>, x: Seq<char>, acc: PaymentMembers, fuel: nat)
    requires
        acc.description is None,
        fuel >= 1,
    ensures
        parse_member_value("description"@, seq![':'] + (json_str(v) + x), acc, fuel)
            == parse_payment_members(
            x,
            PaymentMembers { description: Some(v), ..acc },
            false,
            (fuel - 1) as nat,
        ),
{
    reveal_strlit("amount");
    reveal_strlit("description");
    let w = seq![':'] + (json_str(v) + x);
    assert(w[0] == ':');
    assert(skip_ws(w) == w);
    assert(w.skip(1) =~= json_str(v) + x);
    assert("amount"@.len() == 6);
    assert("description"@.len() == 11);
    assert("description"@ != "amount"@);
    assert((json_str(v) + x)[0] == '"');
    assert(skip_ws(json_str(v) + x) == json_str(v) + x);
    crate::json::lemma_parse_json_str(v, x);
}

/// Reading a written `redirectUrl` member fills the redirect slot and
/// goes on with the members after it.
proof fn lemma_member_value_redirect(v: Seq<char>, x: Seq<char>, acc: PaymentMembers, fuel: nat)
    requires
        acc.redirect_url is None,
        fuel >= 1,
    ensures
        parse_member_value("redirectUrl"@, seq![':'] + (json_str(v) + x), acc, fuel)
            == parse_payment_members(
            x,
            PaymentMembers { redirect_url: Some(v), ..acc },
            false,
            (fuel - 1) as nat,
        ),
{
    reveal_strlit("amount");
    reveal_strlit("description");
    reveal_strlit("redirectUrl");
    let w = seq![':'] + (json_str(v) + x);
    assert(w[0] == ':');
    assert(skip_ws(w) == w);
    assert(w.skip(1) =~= json_str(v) + x);
    assert("amount"@.len() == 6);
    assert("description"@.len() == 11);
    assert("redirectUrl"@.len() == 11);
    assert("redirectUrl"@[0] == 'r');
    assert("description"@[0] == 'd');
    assert("redirectUrl"@ != "amount"@);
    assert("redirectUrl"@ != "description"@);
    assert((json_str(v) + x)[0] == '"');
    assert(skip_ws(json_str(v) + x) == json_str(v) + x);
    crate::json::lemma_parse_json_str(v, x);
}

/// Reading a written `webhookUrl` member fills the webhook slot and
/// goes on with the members after it.
proof fn lemma_member_value_webhook(v: Seq<char>, x: Seq<char>, acc: PaymentMembers, fuel: nat)
    requires
        acc.webhook_url is None,
        fuel >= 1,
    ensures
        parse_member_value("webhookUrl"@, seq![':'] + (json_str(v) + x), acc, fuel)
            == parse_payment_members(
            x,
            PaymentMembers { webhook_url: Some(v), ..acc },
            false,
            (fuel - 1) as nat,
        ),
{
    reveal_strlit("amount");
    reveal_strlit("description");
    reveal_strlit("redirectUrl");
    reveal_strlit("webhookUrl");
    let w = seq![':'] + (json_str(v) + x);
    assert(w[0] == ':');
    assert(skip_ws(w) == w);
    assert(w.skip(1) =~= json_str(v) + x);
    assert("amount"@.len() == 6);
    assert("description"@.len() == 11);
    assert("webhookUrl"@.len() == 10);
    assert("redirectUrl"@.len() == 11);
    assert("webhookUrl"@[0] == 'w');
    assert("redirectUrl"@[0] == 'r');
    assert("webhookUrl"@ != "amount"@);
    assert("webhookUrl"@ != "description"@);
    assert("webhookUrl"@ != "redirectUrl"@);
    assert((json_str(v) + x)[0] == '"');
    assert(skip_ws(json_str(v) + x) == json_str(v) + x);
    crate::json::lemma_parse_json_str(v, x);
}

/// Reading a written `metadata` member fills the metadata slot and
/// goes on with the members after it.
proof fn lemma_member_value_metadata(m: MetadataView, x: Seq<char>, acc: PaymentMembers, fuel: nat)
    requires
        acc.metadata is None,
        fuel >= 1,
    ensures
        parse_member_value("metadata"@, seq![':'] + (metadata_json(m) + x), acc, fuel)
            == parse_payment_members(
            x,
            PaymentMembers { metadata: Some(m), ..acc },
            false,
            (fuel - 1) as nat,
        ),
{
    reveal_strlit("amount");
    reveal_strlit("description");
    reveal_strlit("redirectUrl");
    reveal_strlit("webhookUrl");
    reveal_strlit("metadata");
    let w = seq![':'] + (metadata_json(m) + x);
    assert(w[0] == ':');
    assert(skip_ws(w) == w);
    assert(w.skip(1) =~= metadata_json(m) + x);
    assert("amount"@.len() == 6);
    assert("description"@.len() == 11);
    assert("redirectUrl"@.len() == 11);
    assert("webhookUrl"@.len() == 10);
    assert("metadata"@.len() == 8);
    assert("metadata"@ != "amount"@);
    assert("metadata"@ != "description"@);
    assert("metadata"@ != "redirectUrl"@);
    assert("metadata"@ != "webhookUrl"@);
    lemma_metadata_round_trip(m, x);
}

/// The first member of a written payment document, with all that
/// follows it grouped to its right.
pub open spec fn payment_json_tail(p: PaymentView, rest: Seq<char>) -> Seq<char> {
    let x5 = seq!['}'] + rest;
    let m5 = json_str("metadata"@) + (seq![':'] + (metadata_json(p.metadata) + x5));
    let x4 = seq![','] + m5;
    let m4 = json_str("webhookUrl"@) + (seq![':'] + (json_str(p.webhook_url) + x4));
    let x3 = seq![','] + m4;
    let m3 = json_str("redirectUrl"@) + (seq![':'] + (json_str(p.redirect_url) + x3));
    let x2 = seq![','] + m3;
    let m2 = json_str("description"@) + (seq![':'] + (json_str(p.description) + x2));
    let x1 = seq![','] + m2;
    json_str("amount"@) + (seq![':'] + (amount_json(p.amount) + x1))
}

/// A written payment document is its opening brace and then its
/// members, grouped to the right.
#[verifier::rlimit(100)]
proof fn lemma_payment_json_shape(p: PaymentView, rest: Seq<char>)
    ensures
        (payment_json(p) + rest).skip(1) == payment_json_tail(p, rest),
        (payment_json(p) + rest)[0] == '{',
{
    assert((payment_json(p) + rest)[0] == '{');
    assert((payment_json(p) + rest).skip(1) =~= payment_json_tail(p, rest));
}

/// Reading a written payment object gives back the payment.
#[verifier::rlimit(100)]
pub proof fn lemma_payment_object_round_trip(p: PaymentView, rest: Seq<char>)
    ensures
        parse_payment_object(payment_json(p) + rest) == Some((p, rest)),
{
    reveal_strlit("amount");
    reveal_strlit("description");
    reveal_strlit("redirectUrl");
    reveal_strlit("webhookUrl");
    reveal_strlit("metadata");
    let full = payment_json(p) + rest;
    let x5 = seq!['}'] + rest;
    let m5 = json_str("metadata"@) + (seq![':'] + (metadata_json(p.metadata) + x5));
    let x4 = seq![','] + m5;
    let m4 = json_str("webhookUrl"@) + (seq![':'] + (json_str(p.webhook_url) + x4));
    let x3 = seq![','] + m4;
    let m3 = json_str("redirectUrl"@) + (seq![':'] + (json_str(p.redirect_url) + x3));
    let x2 = seq![','] + m3;
    let m2 = json_str("description"@) + (seq![':'] + (json_str(p.description) + x2));
    let x1 = seq![','] + m2;
    let m1 = json_str("amount"@) + (seq![':'] + (amount_json(p.amount) + x1));
    lemma_payment_json_shape(p, rest);
    assert(full[0] == '{');
    assert(skip_ws(full) == full);
    assert(full.skip(1) == m1);
    let f0 = full.len();
    assert(f0 >= 11);
    let acc0 = no_payment_members();
    // first member: `amount`
    assert(m1[0] == '"');
    assert(skip_ws(m1) == m1);
    crate::json::lemma_parse_json_str("amount"@, seq![':'] + (amount_json(p.amount) + x1));
    lemma_member_value_amount(p.amount, x1, acc0, (f0 - 1) as nat);
    let acc1 = PaymentMembers { amount: Some(p.amount), ..acc0 };
    // second member: `description`
    assert(x1[0] == ',');
    assert(skip_ws(x1) == x1);
    assert(x1.skip(1) =~= m2);
    assert(m2[0] == '"');
    assert(skip_ws(m2) == m2);
    crate::json::lemma_parse_json_str("description"@, seq![':'] + (json_str(p.description) + x2));
    lemma_member_value_description(p.description, x2, acc1, (f0 - 3) as nat);
    let acc2 = PaymentMembers { description: Some(p.description), ..acc1 };
    // third member: `redirectUrl`
    assert(x2[0] == ',');
    assert(skip_ws(x2) == x2);
    assert(x2.skip(1) =~= m3);
    assert(m3[0] == '"');
    assert(skip_ws(m3) == m3);
    crate::json::lemma_parse_json_str("redirectUrl"@, seq![':'] + (json_str(p.redirect_url) + x3));
    lemma_member_value_redirect(p.redirect_url, x3, acc2, (f0 - 5) as nat);
    let acc3 = PaymentMembers { redirect_url: Some(p.redirect_url), ..acc2 };
    // fourth member: `webhookUrl`
    assert(x3[0] == ',');
    assert(skip_ws(x3) == x3);
    assert(x3.skip(1) =~= m4);
    assert(m4[0] == '"');
    assert(skip_ws(m4) == m4);
    crate::json::lemma_parse_json_str("webhookUrl"@, seq![':'] + (json_str(p.webhook_url) + x4));
    lemma_member_value_webhook(p.webhook_url, x4, acc3, (f0 - 7) as nat);
    let acc4 = PaymentMembers { webhook_url: Some(p.webhook_url), ..acc3 };
    // fifth member: `metadata`
    assert(x4[0] == ',');
    assert(skip_ws(x4) == x4);
    assert(x4.skip(1) =~= m5);
    assert(m5[0] == '"');
    assert(skip_ws(m5) == m5);
    crate::json::lemma_parse_json_str("metadata"@, seq![':'] + (metadata_json(p.metadata) + x5));
    lemma_member_value_metadata(p.metadata, x5, acc4, (f0 - 9) as nat);
    // closing brace
    assert(x5[0] == '}');
    assert(skip_ws(x5) == x5);
    assert(x5.skip(1) =~= rest);
    assert(parse_payment_object(full) == Some((p, rest)));
}

/// Writing a payment and reading the document back gives the payment,
/// field for field.
pub proof fn lemma_payment_round_trip(p: PaymentView)
    ensures
        parse_payment_document(payment_json(p)) == Some(p),
{
    lemma_payment_object_round_trip(p, Seq::<char>::empty());
    assert(payment_json(p) + Seq::<char>::empty() =~= payment_json(p));
    assert(skip_ws(Seq::<char>::empty()).len() == 0);
}

/// The fixed endpoint payments are created at.
pub fn payments_endpoint() -> (r: &'static str)
    ensures
        r@ == "https://api.mollie.com/v2/payments"@,
{
    "https://api.mollie.com/v2/payments"
}

/// What one attempt at the HTTP exchange came to: either a response,
/// with its status code and body, or a connection-level fault with no
/// response at all.
pub enum TransportOutcome {
    Response { status: u16, body: String },
    ConnectionFailure { cause: String },
}

/// Turns the outcome of the one HTTP call into the result of the
/// payment creation.
///
/// A response with status `201 Created` succeeds exactly when its body
/// is a well-formed payment document; any other body is a
/// deserialization error.  A response with any other status is an HTTP
/// error carrying that status, whatever the body holds.  A connection
/// fault is a network error carrying its cause.
pub fn complete_payment(outcome: TransportOutcome) -> (r: Result<PaymentResponse, MollieError>)
    ensures
        match outcome {
            TransportOutcome::Response { status, body } => {
                if status == 201 {
                    match r {
                        Ok(resp) => parse_payment_document(body@) == Some(resp@),
                        Err(e) => parse_payment_document(body@) is None && e is DeserializeError,
                    }
                } else {
                    r matches Err(MollieError::HttpError(c)) && c == status
                }
            },
            TransportOutcome::ConnectionFailure { cause } => (r matches Err(
                MollieError::NetworkError(c),
            ) && c == cause),
        },
{
    match outcome {
        TransportOutcome::Response { status, body } => {
            if status == 201 {
                parse_payment_response(body.as_str())
            } else {
                Err(MollieError::HttpError(status))
            }
        },
        TransportOutcome::ConnectionFailure { cause } => Err(MollieError::NetworkError(cause)),
    }
}

} // verus!
