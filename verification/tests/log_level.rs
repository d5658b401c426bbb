use consensus_protocol::log_level::{LogLevel, LogPriority, SlogLevel};
use std::cmp::Ordering;

#[test]
fn fatal_should_be_greater() {
    let lvl = LogLevel::Fatal;
    let other = LogLevel::Error;

    assert_eq!(
        lvl.cmp(&other),
        Ordering::Greater,
        "fatal should be most severe"
    );
}

#[test]
fn debug_should_be_less() {
    let lvl = LogLevel::Debug;
    let other = LogLevel::Info;

    assert_eq!(
        lvl.cmp(&other),
        Ordering::Less,
        "debug should be least severe"
    );
}

#[test]
fn fatal_should_equal_fatal() {
    let x = LogLevel::Fatal;
    let y = LogLevel::Fatal;
    assert!(x.eq(&y), "fatal should = fatal");
    assert_eq!(
        x.cmp(&y),
        Ordering::Equal,
        "fatal should have same order as fatal"
    );
}

#[test]
fn fatal_should_be_gt_error() {
    assert!(LogLevel::Fatal > LogLevel::Error, "fatal should be > error");
}

#[test]
fn error_should_be_lt_fatal() {
    assert!(LogLevel::Error < LogLevel::Fatal, "error should be < fatal");
}

#[test]
fn fatal_should_be_max() {
    let lvl = LogLevel::Fatal;
    let other = LogLevel::Error;

    let max = lvl.max(other);

    assert_eq!(max, LogLevel::Fatal, "fatal is most severe");
}

#[test]
fn debug_should_be_min() {
    let lvl = LogLevel::Warning;
    let other = LogLevel::Debug;

    let min = lvl.min(other);

    assert_eq!(min, LogLevel::Debug, "debug should be least severe");
}

#[test]
fn error_should_be_min_vs_fatal() {
    let lvl = LogLevel::Error;
    let other = LogLevel::Fatal;

    let min = lvl.min(other);

    assert_eq!(min, LogLevel::Error, "error should be less severe");
}

#[test]
fn fatal_should_be_syslog_0() {
    assert_eq!(LogLevel::Fatal.get_priority(), 0, "Fatal should be priority 0");
}

#[test]
fn error_should_be_syslog_3() {
    assert_eq!(LogLevel::Error.get_priority(), 3, "Error should be priority 3");
}

#[test]
fn warning_should_be_syslog_4() {
    assert_eq!(LogLevel::Warning.get_priority(), 4, "Warning should be priority 4");
}

#[test]
fn info_should_be_syslog_5() {
    assert_eq!(LogLevel::Info.get_priority(), 5, "Info should be priority 5");
}

#[test]
fn debug_should_be_syslog_7() {
    assert_eq!(LogLevel::Debug.get_priority(), 7, "Debug should be priority 7");
}

#[test]
fn should_get_loglevel_priority() {
    assert_eq!(LogLevel::Warning.get_priority(), 4, "warn should be 4");
}

#[test]
fn should_get_loglevel_item_priority() {
    let ll = LogLevel::Error;
    assert_eq!(ll.get_priority(), 3, "error should be 3");
}

#[test]
fn should_get_log_priority_fm_log_level() {
    let ll = LogLevel::Info;

    let lp = LogPriority::new(ll);

    let priority = lp.value();

    assert_eq!(ll.get_priority(), priority, "priority mismatch");
}

#[test]
fn slog_critical_eq_fatal() {
    let ll: slog::Level = LogLevel::Fatal.into();
    assert_eq!(ll, slog::Level::Critical, "Fatal eq Critical");
}

#[test]
fn slog_error_eq_error() {
    let ll: slog::Level = LogLevel::Error.into();
    assert_eq!(ll, slog::Level::Error, "Error eq Error");
}

#[test]
fn slog_warning_eq_warning() {
    let ll: slog::Level = LogLevel::Warning.into();
    assert_eq!(ll, slog::Level::Warning, "Warning eq Warning");
}

#[test]
fn slog_info_eq_info() {
    let ll: slog::Level = LogLevel::Info.into();
    assert_eq!(ll, slog::Level::Info, "Info eq Info");
}

#[test]
fn slog_debug_eq_debug() {
    let ll: slog::Level = LogLevel::Debug.into();
    assert_eq!(ll, slog::Level::Debug, "Debug eq Debug");
}

#[test]
fn to_slog_agrees_with_the_named_levels() {
    let levels = [
        LogLevel::Fatal,
        LogLevel::Error,
        LogLevel::Warning,
        LogLevel::Info,
        LogLevel::Debug,
    ];
    for level in levels {
        let named = slog::Level::from_usize(level.to_slog_level().as_usize()).unwrap();
        assert_eq!(level.to_slog(), named);
        assert_eq!(slog::Level::from(level), named);
        assert_ne!(level.to_slog(), slog::Level::Trace);
    }
}

#[test]
fn slog_levels_are_numbered_as_slog_numbers_them() {
    let pairs = [
        (SlogLevel::Critical, slog::Level::Critical),
        (SlogLevel::Error, slog::Level::Error),
        (SlogLevel::Warning, slog::Level::Warning),
        (SlogLevel::Info, slog::Level::Info),
        (SlogLevel::Debug, slog::Level::Debug),
        (SlogLevel::Trace, slog::Level::Trace),
    ];
    for (ours, theirs) in pairs {
        assert_eq!(ours.as_usize(), theirs.as_usize());
    }
}

#[test]
fn every_level_has_its_slog_level() {
    assert_eq!(LogLevel::Fatal.to_slog_level(), SlogLevel::Critical);
    assert_eq!(LogLevel::Error.to_slog_level(), SlogLevel::Error);
    assert_eq!(LogLevel::Warning.to_slog_level(), SlogLevel::Warning);
    assert_eq!(LogLevel::Info.to_slog_level(), SlogLevel::Info);
    assert_eq!(LogLevel::Debug.to_slog_level(), SlogLevel::Debug);
}

#[test]
fn max_of_equal_levels_is_that_level() {
    assert_eq!(LogLevel::Info.max(LogLevel::Info), LogLevel::Info);
    assert_eq!(LogLevel::Info.min(LogLevel::Info), LogLevel::Info);
    assert_eq!(LogLevel::Debug.max(LogLevel::Fatal), LogLevel::Fatal);
    assert_eq!(LogLevel::Debug.min(LogLevel::Fatal), LogLevel::Debug);
}

#[test]
fn severity_inverts_the_priorities() {
    let levels = [
        LogLevel::Debug,
        LogLevel::Info,
        LogLevel::Warning,
        LogLevel::Error,
        LogLevel::Fatal,
    ];
    for (i, a) in levels.iter().enumerate() {
        for (j, b) in levels.iter().enumerate() {
            assert_eq!(a.cmp(b), i.cmp(&j));
            assert_eq!(a.partial_cmp(b), Some(i.cmp(&j)));
            assert_eq!(a.get_priority() > b.get_priority(), i < j);
        }
    }
}
