//! Settings of the application and of its parts, with their defaults.
use vstd::prelude::*;

verus! {

/// Settings of the realtime (websocket) side of the exchange.
#[derive(Debug, Clone)]
pub struct WsCfg {
    pub baseurl: String,
    /// How many redundant workers subscribe to each stream.
    pub workers: u64,
}

impl Default for WsCfg {
    fn default() -> (r: Self)
        ensures
            r.baseurl@ == "wss://stream.binance.com:9443"@,
            r.workers == 5,
    {
        Self { baseurl: String::from_str("wss://stream.binance.com:9443"), workers: 5 }
    }
}

/// Settings of the exchange's endpoints.
#[derive(Debug, Clone)]
pub struct BncCfg {
    pub baseurl: String,
    /// How many messages a queue between workers and consumer holds.
    pub chnlcapacity: usize,
    pub ws: WsCfg,
}

impl Default for BncCfg {
    fn default() -> (r: Self)
        ensures
            r.baseurl@ == "https://api.binance.com"@,
            r.chnlcapacity == 64,
            r.ws.baseurl@ == "wss://stream.binance.com:9443"@,
            r.ws.workers == 5,
    {
        Self {
            baseurl: String::from_str("https://api.binance.com"),
            ws: WsCfg::default(),
            chnlcapacity: 64,
        }
    }
}

/// Settings of the core: the exchange's part.
#[derive(Debug, Clone)]
pub struct CoreCfg {
    pub bnc: BncCfg,
}

impl Default for CoreCfg {
    fn default() -> (r: Self)
        ensures
            r.bnc.baseurl@ == "https://api.binance.com"@,
            r.bnc.chnlcapacity == 64,
            r.bnc.ws.baseurl@ == "wss://stream.binance.com:9443"@,
            r.bnc.ws.workers == 5,
    {
        Self { bnc: BncCfg::default() }
    }
}

/// The most verbose kind of log record that is kept.
#[derive(Debug, Clone, Copy, PartialEq, Eq, Structural)]
pub enum LogLevel {
    Off,
    Error,
    Warn,
    Info,
    Debug,
    Trace,
}

/// Settings of the process's log.
#[derive(Debug, Clone)]
pub struct LogCfg {
    pub level: LogLevel,
    pub enabled: bool,
    pub logfile: String,
}

impl Default for LogCfg {
    fn default() -> (r: Self)
        ensures
            r.level == LogLevel::Info,
            r.enabled,
            r.logfile@ == "logs/default.log"@,
    {
        Self { level: LogLevel::Info, enabled: true, logfile: String::from_str("logs/default.log") }
    }
}

/// Settings of the terminal interface.
#[derive(Debug, Clone)]
pub struct UICfg {
    /// Milliseconds between screen updates.
    pub tick_rate: u64,
}

impl Default for UICfg {
    fn default() -> (r: Self)
        ensures
            r.tick_rate == 100,
    {
        Self { tick_rate: 100 }
    }
}

/// Settings of the whole application.
#[derive(Debug, Clone)]
pub struct AppCfg {
    pub logging: LogCfg,
    pub core: CoreCfg,
    pub ui: UICfg,
}

} // verus!
