//! The diagnostic bus observed from outside: ordering, isolation, closure.

use mir_lower::diagnostic::Diagnostic;
use mir_lower::dlogger::{BusClosed, DiagnosticLog};

#[test]
fn bus_ordering_single_logger() {
    let mut bus = DiagnosticLog::new();
    let mut logger = bus.getLogger();
    logger.log(Diagnostic::UnrecognizedCharacter { byte: 0x40 });
    logger.log(Diagnostic::InvalidUnicodeCodePoint);
    assert_eq!(logger.pending_len(), 2);
    assert!(bus.collect(&mut logger).is_ok());
    assert_eq!(logger.pending_len(), 0);
    assert_eq!(
        bus.take_next(),
        Some(Diagnostic::UnrecognizedCharacter { byte: 0x40 })
    );
    assert_eq!(bus.take_next(), Some(Diagnostic::InvalidUnicodeCodePoint));
    assert_eq!(bus.take_next(), None);
}

#[test]
fn bus_isolation_two_loggers() {
    let mut bus = DiagnosticLog::new();
    let mut lexer_logger = bus.getLogger();
    let mut lowering_logger = bus.getLogger();
    lexer_logger.log(Diagnostic::UnexpectedEndOfStringLiteral);
    lowering_logger.log(Diagnostic::UnboundIdentifier { name: vec![b'a'] });
    lexer_logger.log(Diagnostic::DigitExceedsRadix { radix: 8, digit: 9 });
    assert!(bus.collect(&mut lowering_logger).is_ok());
    assert!(bus.collect(&mut lexer_logger).is_ok());
    // Nothing lost, nothing invented: three in, three out, each logger's
    // own order kept.
    assert_eq!(bus.queue_len(), 3);
    assert_eq!(
        bus.take_next(),
        Some(Diagnostic::UnboundIdentifier { name: vec![b'a'] })
    );
    assert_eq!(bus.take_next(), Some(Diagnostic::UnexpectedEndOfStringLiteral));
    assert_eq!(
        bus.take_next(),
        Some(Diagnostic::DigitExceedsRadix { radix: 8, digit: 9 })
    );
    assert_eq!(bus.take_next(), None);
}

#[test]
fn single_diagnostic_drains_unchanged() {
    let mut bus = DiagnosticLog::new();
    let mut logger = bus.getLogger();
    logger.log(Diagnostic::InvalidControlCharacter { byte: 0x07 });
    assert!(bus.collect(&mut logger).is_ok());
    assert_eq!(
        bus.take_next(),
        Some(Diagnostic::InvalidControlCharacter { byte: 0x07 })
    );
    assert_eq!(bus.take_next(), None);
}

#[test]
fn closed_bus_refuses_delivery() {
    let mut bus = DiagnosticLog::new();
    let mut logger = bus.getLogger();
    logger.log(Diagnostic::UnrecognizedRadixPrefix { code: b'z' });
    bus.close();
    assert_eq!(bus.collect(&mut logger), Err(BusClosed));
    // Nothing was corrupted or dropped: the logger still holds its entry.
    assert_eq!(logger.pending_len(), 1);
    assert_eq!(bus.queue_len(), 0);
}

#[test]
fn named_log_operations_build_the_right_variants() {
    let mut bus = DiagnosticLog::new();
    let mut logger = bus.getLogger();
    logger.logUnexpectedEOFInString();
    logger.logInvalidControlChar(0x1b);
    logger.logInvalidUnicodeCodePoint();
    logger.logDigitExceedsRadix(2, 7);
    logger.logUnrecognizedRadixCode(b'q');
    logger.logUnrecognizedCharacter(0xff);
    assert!(bus.collect(&mut logger).is_ok());
    assert_eq!(bus.take_next(), Some(Diagnostic::UnexpectedEndOfStringLiteral));
    assert_eq!(
        bus.take_next(),
        Some(Diagnostic::InvalidControlCharacter { byte: 0x1b })
    );
    assert_eq!(bus.take_next(), Some(Diagnostic::InvalidUnicodeCodePoint));
    assert_eq!(
        bus.take_next(),
        Some(Diagnostic::DigitExceedsRadix { radix: 2, digit: 7 })
    );
    assert_eq!(
        bus.take_next(),
        Some(Diagnostic::UnrecognizedRadixPrefix { code: b'q' })
    );
    assert_eq!(
        bus.take_next(),
        Some(Diagnostic::UnrecognizedCharacter { byte: 0xff })
    );
    assert_eq!(bus.take_next(), None);
}

#[test]
fn empty_bus_yields_nothing() {
    let mut bus = DiagnosticLog::new();
    assert_eq!(bus.queue_len(), 0);
    assert_eq!(bus.take_next(), None);
}
