//! Tests that exercise the host side: cache population, cache hits, the
//! mandatory live re-check, and resets. These attach to a real host
//! interpreter.

use pyo3::types::PyAnyMethods;
use pyo3::Python;
use pyo3_log::{Caching, Level, LevelFilter, Logger};

#[test]
fn cache_population_and_handle_identity() {
    Python::attach(|py| {
        let logger = Logger::new(Caching::LoggersAndLevels);
        assert!(logger.lookup("my_mod::sub").is_none());

        let cache = logger.lookup("my_mod::sub");
        logger.log_with_py(
            py,
            "my_mod::sub",
            Level::Error,
            Some("file.rs"),
            Some(3),
            "hello",
            &cache,
        );

        // The entry is cached for exactly that path, and the handle is the
        // very one the host returns for the translated name.
        let node = logger.lookup("my_mod::sub").expect("entry was cached");
        let entry = node.local.as_ref().expect("entry was cached");
        let fresh = py
            .import("logging")
            .unwrap()
            .getattr("getLogger")
            .unwrap()
            .call1(("my_mod.sub",))
            .unwrap();
        assert!(entry.logger.bind(py).is(&fresh));

        // An unrelated path stays uncached.
        assert!(logger.lookup("my_mod::other").is_none());
    });
}

#[test]
fn cached_filter_follows_host_threshold() {
    Python::attach(|py| {
        // The host's root configuration leaves this logger at WARNING.
        let logger = Logger::new(Caching::LoggersAndLevels).filter(LevelFilter::Trace);
        let cache = logger.lookup("threshold_probe");
        logger.log_with_py(py, "threshold_probe", Level::Error, None, None, "x", &cache);
        let node = logger.lookup("threshold_probe").expect("cached");
        assert_eq!(node.local.as_ref().unwrap().filter, LevelFilter::Warn);
    });
}

#[test]
fn caching_loggers_only_stores_no_restriction() {
    Python::attach(|py| {
        let logger = Logger::new(Caching::Loggers);
        let cache = logger.lookup("handles_only");
        logger.log_with_py(py, "handles_only", Level::Error, None, None, "x", &cache);
        let node = logger.lookup("handles_only").expect("cached");
        // Only the handle is remembered; the filter places no restriction.
        assert_eq!(node.local.as_ref().unwrap().filter, LevelFilter::Trace);
    });
}

#[test]
fn caching_nothing_never_populates() {
    Python::attach(|py| {
        let logger = Logger::new(Caching::Nothing);
        let cache = logger.lookup("uncached");
        assert!(cache.is_none());
        logger.log_with_py(py, "uncached", Level::Error, None, None, "x", &cache);
        assert!(logger.lookup("uncached").is_none());
    });
}

#[test]
fn reset_clears_and_is_idempotent() {
    Python::attach(|py| {
        let logger = Logger::new(Caching::LoggersAndLevels);
        let handle = logger.reset_handle();
        let cache = logger.lookup("reset_me::leaf");
        logger.log_with_py(py, "reset_me::leaf", Level::Error, None, None, "x", &cache);
        assert!(logger.lookup("reset_me::leaf").is_some());

        // After a reset the path misses again, exactly as before the first
        // call; a second reset changes nothing further.
        handle.reset();
        assert!(logger.lookup("reset_me::leaf").is_none());
        handle.reset();
        assert!(logger.lookup("reset_me::leaf").is_none());

        // And the path can be cached again afterwards.
        let cache = logger.lookup("reset_me::leaf");
        logger.log_with_py(py, "reset_me::leaf", Level::Error, None, None, "y", &cache);
        assert!(logger.lookup("reset_me::leaf").is_some());
    });
}

#[test]
fn delivery_and_live_recheck() {
    Python::attach(|py| {
        let logging = py.import("logging").unwrap();
        let handlers = py.import("logging.handlers").unwrap();
        let buffering = handlers
            .getattr("BufferingHandler")
            .unwrap()
            .call1((100,))
            .unwrap();
        let py_logger = logging
            .getattr("getLogger")
            .unwrap()
            .call1(("live_recheck",))
            .unwrap();
        py_logger.call_method1("addHandler", (&buffering,)).unwrap();
        py_logger.call_method1("setLevel", (10,)).unwrap();

        let logger = Logger::new(Caching::LoggersAndLevels).filter(LevelFilter::Trace);

        // First call: fresh path, handle looked up, record delivered.
        let cache = logger.lookup("live_recheck");
        assert!(cache.is_none());
        logger.log_with_py(py, "live_recheck", Level::Info, None, None, "first", &cache);
        assert_eq!(
            buffering.getattr("buffer").unwrap().len().unwrap(),
            1,
            "first message must reach the host handler"
        );

        // Second call: cache hit (the pre-check passes), but the mandatory
        // live re-check sees the host threshold raised meanwhile and drops
        // the message without constructing a record.
        py_logger.call_method1("setLevel", (50,)).unwrap();
        let cache = logger.lookup("live_recheck");
        assert!(cache.is_some(), "second call must hit the cache");
        logger.log_with_py(py, "live_recheck", Level::Info, None, None, "second", &cache);
        assert_eq!(
            buffering.getattr("buffer").unwrap().len().unwrap(),
            1,
            "the live re-check must drop the second message"
        );
    });
}
