//! Host-free tests: filter resolution, separator translation, the global
//! gate, and the severity mapping.

use pyo3_log::logger::cache_filter_choice;
use pyo3_log::path::{split_target, translate_target};
use pyo3_log::{map_level, Caching, Level, LevelFilter, Logger};

#[test]
fn default_filter() {
    let logger = Logger::default();
    assert_eq!(logger.filter_for("hello_world"), LevelFilter::Debug);
    assert_eq!(logger.filter_for("hello_world::sub"), LevelFilter::Debug);
}

#[test]
fn set_filter() {
    let logger = Logger::default().filter(LevelFilter::Info);
    assert_eq!(logger.filter_for("hello_world"), LevelFilter::Info);
    assert_eq!(logger.filter_for("hello_world::sub"), LevelFilter::Info);
}

#[test]
fn filter_specific() {
    let logger = Logger::default()
        .filter(LevelFilter::Warn)
        .filter_target("hello_world".to_owned(), LevelFilter::Debug)
        .filter_target("hello_world::sub".to_owned(), LevelFilter::Trace);
    assert_eq!(logger.filter_for("hello_world"), LevelFilter::Debug);
    assert_eq!(logger.filter_for("hello_world::sub"), LevelFilter::Trace);
    assert_eq!(
        logger.filter_for("hello_world::sub::multi::level"),
        LevelFilter::Trace
    );
    assert_eq!(
        logger.filter_for("hello_world::another"),
        LevelFilter::Debug
    );
    assert_eq!(
        logger.filter_for("hello_world::another::level"),
        LevelFilter::Debug
    );
    assert_eq!(logger.filter_for("other"), LevelFilter::Warn);
}

#[test]
fn filter_target_last_write_wins() {
    let logger = Logger::default()
        .filter_target("a::b".to_owned(), LevelFilter::Trace)
        .filter_target("a::b".to_owned(), LevelFilter::Error);
    assert_eq!(logger.filter_for("a::b"), LevelFilter::Error);
    assert_eq!(logger.filter_for("a::b::c"), LevelFilter::Error);
}

#[test]
fn default_filter_level_is_debug_with_default_caching() {
    let logger = Logger::default();
    // Debug passes the default filter, Trace does not.
    assert!(logger.enabled("anything", Level::Debug));
    assert!(!logger.enabled("anything", Level::Trace));
}

#[test]
fn scenario_default_info_rejects_debug() {
    // Default filter Info, no overrides: Debug is never eligible, on any path.
    let logger = Logger::new(Caching::LoggersAndLevels).filter(LevelFilter::Info);
    assert!(!logger.enabled("some::module", Level::Debug));
    assert!(!logger.enabled("other", Level::Debug));
    assert!(logger.enabled("some::module", Level::Info));
}

#[test]
fn scenario_override_longest_prefix() {
    // Default Warn, override `a::b` = Trace: `a::b::c` logs at Trace through
    // the override, `a::x` falls back to Warn.
    let logger = Logger::new(Caching::LoggersAndLevels)
        .filter(LevelFilter::Warn)
        .filter_target("a::b".to_owned(), LevelFilter::Trace);
    assert!(logger.enabled("a::b::c", Level::Trace));
    assert!(!logger.enabled("a::x", Level::Trace));
    assert!(logger.enabled("a::x", Level::Warn));
}

#[test]
fn filter_off_silences_everything() {
    let logger = Logger::default().filter(LevelFilter::Off);
    assert!(!logger.enabled("x", Level::Error));
    assert_eq!(logger.filter_for("x"), LevelFilter::Off);
}

#[test]
fn translate_separators() {
    assert_eq!(translate_target("a::b::c"), "a.b.c");
    assert_eq!(translate_target("plain"), "plain");
    assert_eq!(translate_target(""), "");
    assert_eq!(translate_target("a:::b"), "a.:b");
}

#[test]
fn split_segments() {
    assert_eq!(split_target("a::b::c"), vec!["a", "b", "c"]);
    assert_eq!(split_target("plain"), vec!["plain"]);
    assert_eq!(split_target(""), vec![""]);
}

#[test]
fn translation_does_not_reinterpret_keys() {
    // The filter table works on the pre-translation (`::`) form; the
    // translated (dotted) form of the same path is a different key.
    let logger = Logger::default()
        .filter(LevelFilter::Warn)
        .filter_target("a::b".to_owned(), LevelFilter::Trace);
    assert_eq!(logger.filter_for("a::b"), LevelFilter::Trace);
    assert_eq!(logger.filter_for("a.b"), LevelFilter::Warn);
}

#[test]
fn map_level_values() {
    assert_eq!(map_level(Level::Error), 40);
    assert_eq!(map_level(Level::Warn), 30);
    assert_eq!(map_level(Level::Info), 20);
    assert_eq!(map_level(Level::Debug), 10);
    // The host has no Trace of its own; 5 sorts below its lowest built-in
    // level.
    assert_eq!(map_level(Level::Trace), 5);
}

#[test]
fn global_filter_is_most_permissive() {
    let logger = Logger::default().filter(LevelFilter::Warn);
    assert_eq!(logger.global_filter(), LevelFilter::Warn);
    let logger = Logger::default()
        .filter(LevelFilter::Warn)
        .filter_target("chatty".to_owned(), LevelFilter::Trace)
        .filter_target("quiet".to_owned(), LevelFilter::Error);
    assert_eq!(logger.global_filter(), LevelFilter::Trace);
    let logger = Logger::default()
        .filter(LevelFilter::Trace)
        .filter_target("quiet".to_owned(), LevelFilter::Off);
    assert_eq!(logger.global_filter(), LevelFilter::Trace);
}

#[test]
fn cache_filter_selection() {
    // Handle-only caching stores "no restriction".
    assert_eq!(
        cache_filter_choice(Caching::Loggers, None),
        LevelFilter::Trace
    );
    // Full caching stores what the probe found.
    assert_eq!(
        cache_filter_choice(Caching::LoggersAndLevels, Some(LevelFilter::Warn)),
        LevelFilter::Warn
    );
    // A failed probe falls back to "no restriction".
    assert_eq!(
        cache_filter_choice(Caching::LoggersAndLevels, None),
        LevelFilter::Trace
    );
}

#[test]
fn level_passes_filters() {
    assert!(Level::Error.passes(LevelFilter::Error));
    assert!(!Level::Warn.passes(LevelFilter::Error));
    assert!(Level::Trace.passes(LevelFilter::Trace));
    assert!(!Level::Error.passes(LevelFilter::Off));
    assert_eq!(
        LevelFilter::Warn.most_verbose(LevelFilter::Trace),
        LevelFilter::Trace
    );
    assert_eq!(
        LevelFilter::Warn.most_verbose(LevelFilter::Off),
        LevelFilter::Warn
    );
    assert_eq!(Level::Info.to_level_filter(), LevelFilter::Info);
}
