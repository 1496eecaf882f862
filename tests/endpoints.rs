use bnc_scraper::config::{AppCfg, BncCfg, CoreCfg, LogCfg, LogLevel, UICfg, WsCfg};
use bnc_scraper::data::{InlineOrder, SymbolBookTick, SymbolPriceUpdate, SymbolSnapshot};
use bnc_scraper::ws::{
    book_ticker_endpoint, depth_updates_endpoint, BncState, ManagerCfg, PriceManagerCfg, WsMaster,
    WsWorker,
};

#[test]
fn depth_endpoint_lowercases_the_symbol() {
    assert_eq!(
        depth_updates_endpoint("wss://stream.binance.com:9443", "BTCUSDT"),
        "wss://stream.binance.com:9443/stream?streams=btcusdt@depth"
    );
}

#[test]
fn book_ticker_endpoint_lowercases_the_symbol() {
    assert_eq!(
        book_ticker_endpoint("wss://host", "EthBtc"),
        "wss://host/stream?streams=ethbtc@bookTicker"
    );
}

#[test]
fn worker_builds_endpoints_on_its_base() {
    let cfg = WsCfg::default();
    let worker = WsWorker::from_cfg(&cfg);
    assert_eq!(worker.base_url(), "wss://stream.binance.com:9443");
    assert_eq!(
        worker.book_ticker_endpoint("BTCUSDT"),
        "wss://stream.binance.com:9443/stream?streams=btcusdt@bookTicker"
    );
    let other = WsWorker::new("wss://other");
    assert_eq!(
        other.depth_updates_endpoint("ABC"),
        "wss://other/stream?streams=abc@depth"
    );
}

#[test]
fn default_settings() {
    let bnc = BncCfg::default();
    assert_eq!(bnc.baseurl, "https://api.binance.com");
    assert_eq!(bnc.chnlcapacity, 64);
    assert_eq!(bnc.ws.baseurl, "wss://stream.binance.com:9443");
    assert_eq!(bnc.ws.workers, 5);
    assert_eq!(CoreCfg::default().bnc.chnlcapacity, 64);
    let log = LogCfg::default();
    assert_eq!(log.level, LogLevel::Info);
    assert!(log.enabled);
    assert_eq!(log.logfile, "logs/default.log");
    assert_eq!(UICfg::default().tick_rate, 100);
    let app = AppCfg {
        logging: log,
        core: CoreCfg::default(),
        ui: UICfg::default(),
    };
    assert_eq!(app.core.bnc.ws.workers, 5);
}

#[test]
fn pipeline_settings_come_from_the_configuration() {
    let mut cfg = BncCfg::default();
    cfg.ws.workers = 3;
    cfg.chnlcapacity = 8;
    let state = BncState::from_cfg(&cfg);
    assert_eq!(state.workers(), 3);
    assert_eq!(state.channel_capacity(), 8);
    assert_eq!(state.ws_base_url(), "wss://stream.binance.com:9443");
    let manager = ManagerCfg::from_cfg(&cfg);
    assert_eq!(manager.workers, 3);
    assert_eq!(manager.rest_conn_url, "https://api.binance.com");
    assert_eq!(manager.ws_conn_url, "wss://stream.binance.com:9443");
    let price = PriceManagerCfg::from_cfg(&cfg.ws);
    assert_eq!(price.workers, 3);
    let master = WsMaster::from_cfg(&cfg.ws);
    assert_eq!(master.workers_amount(), 3);
    assert_eq!(master.base_url(), "wss://stream.binance.com:9443");
    let direct = WsMaster::new("wss://x".to_string(), 2);
    assert_eq!(direct.workers_amount(), 2);
}

#[test]
fn inline_order_accessors() {
    let o = InlineOrder::new("10.5".to_string(), "3".to_string());
    assert_eq!(o.level(), "10.5");
    assert_eq!(o.qty(), "3");
}

#[test]
fn price_update_from_a_tick() {
    let update = SymbolPriceUpdate::from(SymbolBookTick {
        id: 7,
        bid_price: "1.0".to_string(),
        bid_qty: "2".to_string(),
        ask_price: "1.1".to_string(),
        ask_qty: "3".to_string(),
    });
    assert_eq!(update.id, 7);
    assert_eq!(update.bid, InlineOrder::new("1.0".to_string(), "2".to_string()));
    assert_eq!(update.ask, InlineOrder::new("1.1".to_string(), "3".to_string()));
}

#[test]
fn price_update_from_a_snapshot_takes_the_top_levels() {
    let snapshot = SymbolSnapshot {
        last_update_id: 55,
        bids: vec![
            InlineOrder::new("10.0".to_string(), "1".to_string()),
            InlineOrder::new("9.0".to_string(), "1".to_string()),
        ],
        asks: vec![
            InlineOrder::new("10.1".to_string(), "2".to_string()),
            InlineOrder::new("11.0".to_string(), "1".to_string()),
        ],
    };
    let update = SymbolPriceUpdate::from_snapshot(&snapshot).unwrap();
    assert_eq!(update.id, 55);
    assert_eq!(update.bid.level(), "10.0");
    assert_eq!(update.ask.level(), "10.1");
    let empty = SymbolSnapshot {
        last_update_id: 1,
        bids: vec![],
        asks: snapshot.asks.clone(),
    };
    assert!(SymbolPriceUpdate::from_snapshot(&empty).is_none());
}

#[test]
fn price_update_from_a_snapshot_picks_the_best_by_value() {
    let snapshot = SymbolSnapshot {
        last_update_id: 9,
        bids: vec![
            InlineOrder::new("9.5".to_string(), "1".to_string()),
            InlineOrder::new("10.0".to_string(), "2".to_string()),
            InlineOrder::new("10.5".to_string(), "0".to_string()),
        ],
        asks: vec![
            InlineOrder::new("11.0".to_string(), "1".to_string()),
            InlineOrder::new("10.25".to_string(), "3".to_string()),
        ],
    };
    let update = SymbolPriceUpdate::from_snapshot(&snapshot).unwrap();
    assert_eq!(update.id, 9);
    assert_eq!(update.bid, InlineOrder::new("10.0".to_string(), "2".to_string()));
    assert_eq!(update.ask, InlineOrder::new("10.25".to_string(), "3".to_string()));
}

#[test]
fn price_update_from_a_snapshot_with_only_zero_quantities_is_none() {
    let snapshot = SymbolSnapshot {
        last_update_id: 9,
        bids: vec![InlineOrder::new("9.5".to_string(), "0".to_string())],
        asks: vec![InlineOrder::new("11.0".to_string(), "1".to_string())],
    };
    assert!(SymbolPriceUpdate::from_snapshot(&snapshot).is_none());
}
