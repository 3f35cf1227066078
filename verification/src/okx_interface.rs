//! Signed requests to the exchange.
//!
//! A request is made here and sent elsewhere. It is signed with the time at which it is made,
//! in seconds and nanoseconds since the start of 1970.

use crate::config::Config;
use crate::config::ConfigView;
use crate::json::content;
use crate::json::flat_content;
use crate::json::flat_object;
use crate::json::good_keys;
use crate::json::lemma_flat_depth;
use crate::json::pair_texts;
use crate::json::printed_json;
use crate::json::readable;
use crate::json::says;
use crate::json::value_text;
use crate::signing::request_format;
use crate::signing::request_time;
use crate::signing::sign;
use crate::signing::signature_of;
use crate::signing::utc_formatted;
use serde_json::Value;
use vstd::prelude::*;
use vstd::string::*;

verus! {

/// A request that is ready to be sent.
#[derive(Debug)]
pub struct Request {
    pub method: String,
    pub url: String,
    /// Names and values of the headers of this request.
    pub headers: Vec<(String, String)>,
    pub body: Option<String>,
}

/// The contents of a request.
pub struct RequestView {
    pub method: Seq<char>,
    pub url: Seq<char>,
    pub headers: Seq<(Seq<char>, Seq<char>)>,
    pub body: Option<Seq<char>>,
}

impl View for Request {
    type V = RequestView;

    open spec fn view(&self) -> RequestView {
        RequestView {
            method: self.method@,
            url: self.url@,
            headers: pair_texts(self.headers@),
            body: match self.body {
                Some(b) => Some(b@),
                None => None,
            },
        }
    }
}

/// Where the exchange is reached.
pub open spec fn base_url_of() -> Seq<char> {
    "https://www.okx.com"@
}

/// The text that a request's signature is made of.
pub open spec fn prehash(
    time: Seq<char>,
    method: Seq<char>,
    path: Seq<char>,
    body: Seq<char>,
) -> Seq<char> {
    time + method + path + body
}

/// The headers that tell who sends a request.
pub open spec fn access_headers(
    api_key: Seq<char>,
    signature: Seq<char>,
    time: Seq<char>,
    passphrase: Seq<char>,
) -> Seq<(Seq<char>, Seq<char>)> {
    seq![
        ("OK-ACCESS-KEY"@, api_key),
        ("OK-ACCESS-SIGN"@, signature),
        ("OK-ACCESS-TIMESTAMP"@, time),
        ("OK-ACCESS-PASSPHRASE"@, passphrase),
    ]
}

/// A signed request. A request without a body is signed as one with an empty body.
pub open spec fn signed_request_of(
    config: ConfigView,
    time: Seq<char>,
    method: Seq<char>,
    path: Seq<char>,
    body: Option<Seq<char>>,
) -> RequestView {
    let signed_body = match body {
        Some(b) => b,
        None => Seq::empty(),
    };
    RequestView {
        method,
        url: base_url_of() + path,
        headers: access_headers(
            config.api_key,
            signature_of(config.secret_key, prehash(time, method, path, signed_body)),
            time,
            config.passphrase,
        ),
        body,
    }
}

/// The body of a market order.
pub open spec fn market_order(inst_id: Seq<char>, side: Seq<char>, sz: Seq<char>) -> Seq<
    (Seq<char>, Seq<char>),
> {
    seq![
        ("instId"@, inst_id),
        ("tdMode"@, "cross"@),
        ("side"@, side),
        ("ordType"@, "market"@),
        ("sz"@, sz),
    ]
}

/// The body of a cancellation.
pub open spec fn cancellation(inst_id: Seq<char>, ord_id: Seq<char>) -> Seq<(Seq<char>, Seq<char>)> {
    seq![("instId"@, inst_id), ("ordId"@, ord_id)]
}

/// The path of the history of an instrument's orders.
pub open spec fn history_path(inst_type: Seq<char>, inst_id: Seq<char>) -> Seq<char> {
    "/api/v5/trade/orders-history?instType="@ + inst_type + "&instId="@ + inst_id
}

/// The text that a request's signature is made of.
pub fn prehash_text(time: &str, method: &str, path: &str, body: &str) -> (s: String)
    ensures
        s@ == prehash(time@, method@, path@, body@),
{
    let mut s = time.to_owned();
    s.append(method);
    s.append(path);
    s.append(body);
    s
}

/// The headers that tell who sends a request, from its signature.
pub fn access_header_list(api_key: &str, signature: &str, time: &str, passphrase: &str) -> (r: Vec<
    (String, String),
>)
    ensures
        pair_texts(r@) == access_headers(api_key@, signature@, time@, passphrase@),
{
    let mut r: Vec<(String, String)> = Vec::new();
    r.push(("OK-ACCESS-KEY".to_owned(), api_key.to_owned()));
    r.push(("OK-ACCESS-SIGN".to_owned(), signature.to_owned()));
    r.push(("OK-ACCESS-TIMESTAMP".to_owned(), time.to_owned()));
    r.push(("OK-ACCESS-PASSPHRASE".to_owned(), passphrase.to_owned()));
    assert(pair_texts(r@) =~= access_headers(api_key@, signature@, time@, passphrase@));
    r
}

/// An account at the exchange.
pub struct OkxInterface {
    config: Config,
}

impl OkxInterface {
    pub closed spec fn spec_config(&self) -> Config {
        self.config
    }

    pub fn new(config: Config) -> (r: Self)
        ensures
            r.spec_config() == config,
    {
        OkxInterface { config }
    }

    pub fn config(&self) -> (r: &Config)
        ensures
            *r == self.spec_config(),
    {
        &self.config
    }

    /// Headers of every request. The last one sends orders to the simulated market.
    pub fn default_headers(&self) -> (r: Vec<(String, String)>)
        ensures
            pair_texts(r@) == {
                let common = seq![
                    ("content-type"@, "application/json"@),
                    ("accept"@, "application/json"@),
                ];
                if self.spec_config().is_paper_trading {
                    common.push(("x-simulated-trading"@, "1"@))
                } else {
                    common
                }
            },
    {
        let mut r: Vec<(String, String)> = Vec::new();
        r.push(("content-type".to_owned(), "application/json".to_owned()));
        r.push(("accept".to_owned(), "application/json".to_owned()));
        let ghost common = seq![
            ("content-type"@, "application/json"@),
            ("accept"@, "application/json"@),
        ];
        assert(pair_texts(r@) =~= common);
        if self.config.is_paper_trading {
            r.push(("x-simulated-trading".to_owned(), "1".to_owned()));
            assert(pair_texts(r@) =~= common.push(("x-simulated-trading"@, "1"@)));
        }
        r
    }

    /// A request that is signed with a time. There is none at a time that the calendar does not
    /// reach.
    fn signed_request(
        &self,
        secs: i64,
        nanos: u32,
        method: &str,
        path: &str,
        body: Option<String>,
    ) -> (r: Option<Request>)
        ensures
            match (r, utc_formatted(secs, nanos, request_format())) {
                (Some(q), Some(time)) => q@ == signed_request_of(
                    self.spec_config()@,
                    time,
                    method@,
                    path@,
                    match body {
                        Some(b) => Some(b@),
                        None => None,
                    },
                ),
                (None, None) => true,
                _ => false,
            },
    {
        let time = match request_time(secs, nanos) {
            Some(t) => t,
            None => {
                return None;
            },
        };
        let message = match &body {
            Some(b) => prehash_text(time.as_str(), method, path, b.as_str()),
            None => {
                proof {
                    reveal_strlit("");
                    assert(""@ =~= Seq::<char>::empty());
                }
                prehash_text(time.as_str(), method, path, "")
            },
        };
        let signature = sign(self.config.secret_key.as_str(), message.as_str());
        let headers = access_header_list(
            self.config.api_key.as_str(),
            signature.as_str(),
            time.as_str(),
            self.config.passphrase.as_str(),
        );
        let mut url = "https://www.okx.com".to_owned();
        url.append(path);
        Some(Request { method: method.to_owned(), url, headers, body })
    }

    /// Asks for the last price of an instrument. Anybody may ask, so nothing is signed.
    pub fn get_ticker(&self, inst_id: &str) -> (r: Request)
        ensures
            r@ == (RequestView {
                method: "GET"@,
                url: base_url_of() + "/api/v5/market/ticker?instId="@ + inst_id@,
                headers: Seq::empty(),
                body: None,
            }),
    {
        let mut url = "https://www.okx.com".to_owned();
        url.append("/api/v5/market/ticker?instId=");
        url.append(inst_id);
        let r = Request { method: "GET".to_owned(), url, headers: Vec::new(), body: None };
        assert(r@.headers =~= Seq::<(Seq<char>, Seq<char>)>::empty());
        r
    }

    /// Places a market order.
    pub fn place_order(&self, inst_id: &str, side: &str, sz: &str, secs: i64, nanos: u32) -> (r:
        Option<Request>)
        ensures
            match (r, utc_formatted(secs, nanos, request_format())) {
                (Some(q), Some(time)) => {
                    &&& q@.body matches Some(body)
                    &&& says(body, flat_content(market_order(inst_id@, side@, sz@)))
                    &&& q@ == signed_request_of(
                        self.spec_config()@,
                        time,
                        "POST"@,
                        "/api/v5/trade/order"@,
                        Some(body),
                    )
                },
                (None, None) => true,
                _ => false,
            },
    {
        let mut pairs: Vec<(String, String)> = Vec::new();
        pairs.push(("instId".to_owned(), inst_id.to_owned()));
        pairs.push(("tdMode".to_owned(), "cross".to_owned()));
        pairs.push(("side".to_owned(), side.to_owned()));
        pairs.push(("ordType".to_owned(), "market".to_owned()));
        pairs.push(("sz".to_owned(), sz.to_owned()));
        proof {
            let order = market_order(inst_id@, side@, sz@);
            assert(pair_texts(pairs@) =~= order);
            lemma_market_keys(inst_id@, side@, sz@);
            lemma_flat_depth(order);
        }
        let payload = flat_object(pairs);
        self.place_order_payload(&payload, secs, nanos)
    }

    /// Places an order. The request's body is the order as a document, which is read back with the
    /// texts, lists and keys of the order, where that is nested no deeper than documents may be.
    pub fn place_order_payload(&self, payload: &Value, secs: i64, nanos: u32) -> (r: Option<Request>)
        ensures
            match (r, utc_formatted(secs, nanos, request_format())) {
                (Some(q), Some(time)) => {
                    &&& q@.body matches Some(body)
                    &&& body == printed_json(*payload)
                    &&& readable(content(*payload).depth) ==> says(body, content(*payload))
                    &&& q@ == signed_request_of(
                        self.spec_config()@,
                        time,
                        "POST"@,
                        "/api/v5/trade/order"@,
                        Some(body),
                    )
                },
                (None, None) => true,
                _ => false,
            },
    {
        let body = value_text(payload);
        self.signed_request(secs, nanos, "POST", "/api/v5/trade/order", Some(body))
    }

    /// Cancels an order.
    pub fn cancel_order(&self, inst_id: &str, ord_id: &str, secs: i64, nanos: u32) -> (r: Option<
        Request,
    >)
        ensures
            match (r, utc_formatted(secs, nanos, request_format())) {
                (Some(q), Some(time)) => {
                    &&& q@.body matches Some(body)
                    &&& says(body, flat_content(cancellation(inst_id@, ord_id@)))
                    &&& q@ == signed_request_of(
                        self.spec_config()@,
                        time,
                        "POST"@,
                        "/api/v5/trade/cancel-order"@,
                        Some(body),
                    )
                },
                (None, None) => true,
                _ => false,
            },
    {
        let mut pairs: Vec<(String, String)> = Vec::new();
        pairs.push(("instId".to_owned(), inst_id.to_owned()));
        pairs.push(("ordId".to_owned(), ord_id.to_owned()));
        proof {
            let order = cancellation(inst_id@, ord_id@);
            assert(pair_texts(pairs@) =~= order);
            reveal_strlit("instId");
            reveal_strlit("ordId");
            assert(order[0].0.len() != order[1].0.len());
            assert(good_keys(order));
            lemma_flat_depth(order);
        }
        let payload = flat_object(pairs);
        let body = value_text(&payload);
        self.signed_request(secs, nanos, "POST", "/api/v5/trade/cancel-order", Some(body))
    }

    /// Asks for the recent orders of an instrument. The query is part of the signed path, and
    /// the signed body is empty.
    pub fn get_orders_history(&self, inst_type: &str, inst_id: &str, secs: i64, nanos: u32) -> (r:
        Option<Request>)
        ensures
            match (r, utc_formatted(secs, nanos, request_format())) {
                (Some(q), Some(time)) => q@ == signed_request_of(
                    self.spec_config()@,
                    time,
                    "GET"@,
                    history_path(inst_type@, inst_id@),
                    None,
                ),
                (None, None) => true,
                _ => false,
            },
    {
        let mut path = "/api/v5/trade/orders-history?instType=".to_owned();
        path.append(inst_type);
        path.append("&instId=");
        path.append(inst_id);
        self.signed_request(secs, nanos, "GET", path.as_str(), None)
    }
}

/// The keys of a market order can be told apart.
proof fn lemma_market_keys(inst_id: Seq<char>, side: Seq<char>, sz: Seq<char>)
    ensures
        good_keys(market_order(inst_id, side, sz)),
{
    reveal_strlit("instId");
    reveal_strlit("tdMode");
    reveal_strlit("side");
    reveal_strlit("ordType");
    reveal_strlit("sz");
    let order = market_order(inst_id, side, sz);
    assert(order[0].0[0] == 'i');
    assert(order[1].0[0] == 't');
    assert(order[2].0.len() == 4);
    assert(order[3].0.len() == 7);
    assert(order[4].0.len() == 2);
}

} // verus!
