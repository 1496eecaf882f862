//! Realtime endpoints and the settings that the stream workers run with.
use vstd::prelude::*;

use crate::config::{BncCfg, WsCfg};

verus! {

pub open spec fn ascii_lower_char(c: char) -> char {
    if 'A' <= c && c <= 'Z' {
        (c as int + 32) as char
    } else {
        c
    }
}

/// `s` with ASCII capitals made small, every other character kept.
pub open spec fn ascii_lower(s: Seq<char>) -> Seq<char> {
    s.map_values(|c: char| ascii_lower_char(c))
}

/// Relies on `str::to_ascii_lowercase`: it maps 'A'..='Z' to 'a'..='z' and
/// leaves every other character as it is.
#[verifier::external_body]
fn to_ascii_lowercase(s: &str) -> (r: String)
    ensures
        r@ == ascii_lower(s@),
{
    s.to_ascii_lowercase()
}

/// Address of a combined stream: `<base>/stream?streams=<symbol>@<channel>`,
/// the symbol in small letters.
pub open spec fn stream_endpoint(base: Seq<char>, symbol: Seq<char>, channel: Seq<char>) -> Seq<
    char,
> {
    base + "/stream?streams="@ + ascii_lower(symbol) + "@"@ + channel
}

fn stream_url(base_endpoint: &str, symbol: &str, channel: &str) -> (r: String)
    ensures
        r@ == stream_endpoint(base_endpoint@, symbol@, channel@),
{
    let lower = to_ascii_lowercase(symbol);
    let r = String::from_str(base_endpoint).concat("/stream?streams=").concat(lower.as_str()).concat(
        "@",
    ).concat(channel);
    r
}

/// Address of a symbol's depth stream.
pub fn depth_updates_endpoint(base_endpoint: &str, symbol: &str) -> (r: String)
    ensures
        r@ == stream_endpoint(base_endpoint@, symbol@, "depth"@),
{
    stream_url(base_endpoint, symbol, "depth")
}

/// Address of a symbol's best-price stream.
pub fn book_ticker_endpoint(base_endpoint: &str, symbol: &str) -> (r: String)
    ensures
        r@ == stream_endpoint(base_endpoint@, symbol@, "bookTicker"@),
{
    stream_url(base_endpoint, symbol, "bookTicker")
}

/// Where the stream workers connect.
pub struct WsWorker<'a> {
    base_url: &'a str,
}

impl<'a> WsWorker<'a> {
    pub closed spec fn spec_base_url(&self) -> Seq<char> {
        self.base_url@
    }

    pub fn new(base_url: &'a str) -> (r: Self)
        ensures
            r.spec_base_url() == base_url@,
    {
        Self { base_url }
    }

    pub fn from_cfg(cfg: &'a WsCfg) -> (r: Self)
        ensures
            r.spec_base_url() == cfg.baseurl@,
    {
        Self { base_url: cfg.baseurl.as_str() }
    }

    pub fn base_url(&self) -> (r: &'a str)
        ensures
            r@ == self.spec_base_url(),
    {
        self.base_url
    }

    /// Address of a symbol's best-price stream on this worker's base.
    pub fn book_ticker_endpoint(&self, symbol: &str) -> (r: String)
        ensures
            r@ == stream_endpoint(self.spec_base_url(), symbol@, "bookTicker"@),
    {
        book_ticker_endpoint(self.base_url, symbol)
    }

    /// Address of a symbol's depth stream on this worker's base.
    pub fn depth_updates_endpoint(&self, symbol: &str) -> (r: String)
        ensures
            r@ == stream_endpoint(self.spec_base_url(), symbol@, "depth"@),
    {
        depth_updates_endpoint(self.base_url, symbol)
    }
}

/// A pool of workers on one base address, balanced into one stream.
#[derive(Debug)]
pub struct WsMaster {
    workers_amount: u64,
    base_url: String,
}

impl WsMaster {
    pub closed spec fn spec_workers_amount(&self) -> u64 {
        self.workers_amount
    }

    pub closed spec fn spec_base_url(&self) -> Seq<char> {
        self.base_url@
    }

    pub fn new(base_url: String, workers_amount: u64) -> (r: Self)
        ensures
            r.spec_workers_amount() == workers_amount,
            r.spec_base_url() == base_url@,
    {
        Self { workers_amount, base_url }
    }

    pub fn from_cfg(cfg: &WsCfg) -> (r: Self)
        ensures
            r.spec_workers_amount() == cfg.workers,
            r.spec_base_url() == cfg.baseurl@,
    {
        Self::new(cfg.baseurl.clone(), cfg.workers)
    }

    pub fn workers_amount(&self) -> (r: u64)
        ensures
            r == self.spec_workers_amount(),
    {
        self.workers_amount
    }

    pub fn base_url(&self) -> (r: &str)
        ensures
            r@ == self.spec_base_url(),
    {
        self.base_url.as_str()
    }
}

/// What the queued receivers of the exchange's streams are built with.
pub struct BncState<'a> {
    ws_base_url: &'a str,
    channel_capacity: usize,
    workers: u64,
}

impl<'a> BncState<'a> {
    pub closed spec fn spec_ws_base_url(&self) -> Seq<char> {
        self.ws_base_url@
    }

    pub closed spec fn spec_channel_capacity(&self) -> usize {
        self.channel_capacity
    }

    pub closed spec fn spec_workers(&self) -> u64 {
        self.workers
    }

    pub fn from_cfg(cfg: &'a BncCfg) -> (r: Self)
        ensures
            r.spec_ws_base_url() == cfg.ws.baseurl@,
            r.spec_workers() == cfg.ws.workers,
            r.spec_channel_capacity() == cfg.chnlcapacity,
    {
        Self {
            ws_base_url: cfg.ws.baseurl.as_str(),
            workers: cfg.ws.workers,
            channel_capacity: cfg.chnlcapacity,
        }
    }

    pub fn ws_base_url(&self) -> (r: &'a str)
        ensures
            r@ == self.spec_ws_base_url(),
    {
        self.ws_base_url
    }

    pub fn channel_capacity(&self) -> (r: usize)
        ensures
            r == self.spec_channel_capacity(),
    {
        self.channel_capacity
    }

    pub fn workers(&self) -> (r: u64)
        ensures
            r == self.spec_workers(),
    {
        self.workers
    }
}

/// Settings of a book pipeline: its workers and both base addresses.
pub struct ManagerCfg<'a> {
    pub workers: u64,
    pub ws_conn_url: &'a str,
    pub rest_conn_url: &'a str,
}

impl<'a> ManagerCfg<'a> {
    pub fn from_cfg(cfg: &'a BncCfg) -> (r: Self)
        ensures
            r.workers == cfg.ws.workers,
            r.ws_conn_url@ == cfg.ws.baseurl@,
            r.rest_conn_url@ == cfg.baseurl@,
    {
        Self {
            workers: cfg.ws.workers,
            ws_conn_url: cfg.ws.baseurl.as_str(),
            rest_conn_url: cfg.baseurl.as_str(),
        }
    }
}

/// Settings of a best-price pipeline.
pub struct PriceManagerCfg<'a> {
    pub ws_base_url: &'a str,
    pub workers: u64,
}

impl<'a> PriceManagerCfg<'a> {
    pub fn from_cfg(cfg: &'a WsCfg) -> (r: Self)
        ensures
            r.ws_base_url@ == cfg.baseurl@,
            r.workers == cfg.workers,
    {
        Self { ws_base_url: cfg.baseurl.as_str(), workers: cfg.workers }
    }
}

} // verus!
