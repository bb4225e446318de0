//! Logging settings.

use quant_engine::telemetry::{
    Correlation, LogFormat, OutputStream, TelemetryConfig, HOT_PATH_TARGET,
};

fn set(text: &str) -> Option<String> {
    Some(text.to_owned())
}

#[test]
fn from_env_resolves_level_format_and_defaults() {
    let cfg = TelemetryConfig::from_env(None, None, None);
    assert_eq!(cfg.level, "info");
    assert_eq!(cfg.format, LogFormat::Json);
    assert_eq!(cfg.writer, OutputStream::Stdout);
    assert!(cfg.non_blocking);

    let cfg = TelemetryConfig::from_env(set("warn,qe_wfo=debug"), set("trace"), set("PRETTY"));
    assert_eq!(cfg.level, "warn,qe_wfo=debug");
    assert_eq!(cfg.format, LogFormat::Pretty);

    let cfg = TelemetryConfig::from_env(set(""), set("error"), set("yaml"));
    assert_eq!(cfg.level, "error");
    assert_eq!(cfg.format, LogFormat::Json);
}

#[test]
fn empty_variables_say_nothing() {
    let cfg = TelemetryConfig::from_env(set(""), set(""), set(""));
    assert_eq!(cfg.level, TelemetryConfig::default().level);
    assert_eq!(cfg.format, LogFormat::Json);
    let cfg = TelemetryConfig::from_env(None, None, set("pReTtY"));
    assert_eq!(cfg.format, LogFormat::Pretty);
    assert_eq!(cfg.clone().format, LogFormat::Pretty);
    let cfg = TelemetryConfig::from_env(None, None, set("pretty "));
    assert_eq!(cfg.format, LogFormat::Json);
}

#[test]
fn a_run_has_neither_instrument_nor_window() {
    let c = Correlation::run("run-1", "vh123");
    assert_eq!(c.run_id, "run-1");
    assert_eq!(c.vintage_hash, "vh123");
    assert_eq!(c.instrument, "-");
    assert_eq!(c.window_id, "-");
    assert_eq!(HOT_PATH_TARGET, "qe::hot_path");
}
