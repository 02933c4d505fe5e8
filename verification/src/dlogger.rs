//! The diagnostic-reporting bus: one receiving endpoint, any number of
//! sending endpoints ("loggers"), each usable by a pipeline stage that knows
//! nothing about the consumer.
//!
//! A logger buffers what was logged through it, in order; delivery into the
//! bus's queue happens when the bus's owner collects a logger. Within one
//! logger the logged order is kept end to end; across distinct loggers the
//! interleaving is whatever order the owner collects them in, and nothing is
//! ever dropped. Once the receiving endpoint is closed, delivery fails with
//! [`BusClosed`] instead of corrupting state.

use crate::diagnostic::{DiagView, Diagnostic};
use vstd::prelude::*;
use vstd::seq_lib::lemma_multiset_commutative;

verus! {

/// The condition a producer's delivery meets when the receiving endpoint no
/// longer exists. A lifecycle bug in the surrounding system, not a source
/// defect: reportable and non-fatal, never a crash.
#[derive(Clone, Copy, PartialEq, Eq, Debug)]
pub struct BusClosed;

/// A sending endpoint. It holds the diagnostics logged through it, oldest
/// first, until the bus's owner collects them; logging never blocks and
/// never looks at the consumer.
pub struct DiagnosticLogger {
    pending: Vec<Diagnostic>,
}

impl View for DiagnosticLogger {
    type V = Seq<DiagView>;

    closed spec fn view(&self) -> Seq<DiagView> {
        self.pending@.map_values(|d: Diagnostic| d@)
    }
}

impl DiagnosticLogger {
    /// Enqueues one diagnostic after everything logged earlier through this
    /// logger, and returns at once.
    pub fn log(&mut self, d: Diagnostic)
        ensures
            final(self)@ == old(self)@.push(d@),
    {
        self.pending.push(d);
        proof {
            assert(self@ =~= old(self)@.push(d@));
        }
    }

    /// Logs that a string literal ended at end of input.
    #[allow(non_snake_case)]
    pub fn logUnexpectedEOFInString(&mut self)
        ensures
            final(self)@ == old(self)@.push(DiagView::UnexpectedEndOfStringLiteral),
    {
        self.log(Diagnostic::UnexpectedEndOfStringLiteral);
    }

    /// Logs a control character that is allowed nowhere.
    #[allow(non_snake_case)]
    pub fn logInvalidControlChar(&mut self, byte: u8)
        ensures
            final(self)@ == old(self)@.push(DiagView::InvalidControlCharacter { byte }),
    {
        self.log(Diagnostic::InvalidControlCharacter { byte });
    }

    /// Logs an escape that names no Unicode scalar value.
    #[allow(non_snake_case)]
    pub fn logInvalidUnicodeCodePoint(&mut self)
        ensures
            final(self)@ == old(self)@.push(DiagView::InvalidUnicodeCodePoint),
    {
        self.log(Diagnostic::InvalidUnicodeCodePoint);
    }

    /// Logs a digit that is no digit of the literal's radix.
    #[allow(non_snake_case)]
    pub fn logDigitExceedsRadix(&mut self, radix: u8, digit: u8)
        ensures
            final(self)@ == old(self)@.push(DiagView::DigitExceedsRadix { radix, digit }),
    {
        self.log(Diagnostic::DigitExceedsRadix { radix, digit });
    }

    /// Logs a radix prefix letter that names no known radix.
    #[allow(non_snake_case)]
    pub fn logUnrecognizedRadixCode(&mut self, code: u8)
        ensures
            final(self)@ == old(self)@.push(DiagView::UnrecognizedRadixPrefix { code }),
    {
        self.log(Diagnostic::UnrecognizedRadixPrefix { code });
    }

    /// Logs a byte that starts no token.
    #[allow(non_snake_case)]
    pub fn logUnrecognizedCharacter(&mut self, character: u8)
        ensures
            final(self)@ == old(self)@.push(DiagView::UnrecognizedCharacter { byte: character }),
    {
        self.log(Diagnostic::UnrecognizedCharacter { byte: character });
    }

    /// How many diagnostics wait in this logger.
    pub fn pending_len(&self) -> (r: usize)
        ensures
            r == self@.len(),
    {
        self.pending.len()
    }
}

/// The bus: owns the receiving endpoint and its unbounded queue, and mints
/// loggers. Created once per compilation unit; closed when the consumer is
/// gone.
pub struct DiagnosticLog {
    queue: Vec<Diagnostic>,
    alive: bool,
}

impl View for DiagnosticLog {
    type V = Seq<DiagView>;

    closed spec fn view(&self) -> Seq<DiagView> {
        self.queue@.map_values(|d: Diagnostic| d@)
    }
}

impl DiagnosticLog {
    /// Whether the receiving endpoint still exists.
    pub closed spec fn is_open(&self) -> bool {
        self.alive
    }

    /// A fresh bus: empty queue, receiving endpoint alive.
    pub fn new() -> (r: Self)
        ensures
            r@ == Seq::<DiagView>::empty(),
            r.is_open(),
    {
        let r = DiagnosticLog { queue: Vec::new(), alive: true };
        proof {
            assert(r@ =~= Seq::<DiagView>::empty());
        }
        r
    }

    /// Mints a new, independent sending endpoint with nothing pending.
    /// Every logger ever produced is usable for the bus's whole lifetime.
    #[allow(non_snake_case)]
    pub fn getLogger(&mut self) -> (r: DiagnosticLogger)
        ensures
            *final(self) == *old(self),
            r@ == Seq::<DiagView>::empty(),
    {
        let r = DiagnosticLogger { pending: Vec::new() };
        proof {
            assert(r@ =~= Seq::<DiagView>::empty());
        }
        r
    }

    /// Delivers everything a logger holds into the bus's queue, after
    /// everything delivered earlier, keeping the logger's own order; the
    /// logger comes back empty. Fails with [`BusClosed`], changing nothing,
    /// once the receiving endpoint is closed.
    pub fn collect(&mut self, logger: &mut DiagnosticLogger) -> (r: Result<(), BusClosed>)
        ensures
            old(self).is_open() ==> {
                &&& r is Ok
                &&& final(self)@ == old(self)@ + old(logger)@
                &&& final(logger)@ == Seq::<DiagView>::empty()
                &&& final(self).is_open()
            },
            !old(self).is_open() ==> {
                &&& r is Err
                &&& *final(self) == *old(self)
                &&& *final(logger) == *old(logger)
            },
    {
        if self.alive {
            self.queue.append(&mut logger.pending);
            proof {
                assert(self@ =~= old(self)@ + old(logger)@);
                assert(logger@ =~= Seq::<DiagView>::empty());
            }
            Ok(())
        } else {
            Err(BusClosed)
        }
    }

    /// Takes the next enqueued diagnostic, oldest first, or nothing when the
    /// queue is empty.
    pub fn take_next(&mut self) -> (r: Option<Diagnostic>)
        ensures
            old(self)@.len() > 0 ==> {
                &&& r matches Some(d) && d@ == old(self)@[0]
                &&& final(self)@ == old(self)@.drop_first()
            },
            old(self)@.len() == 0 ==> r is None && *final(self) == *old(self),
            final(self).is_open() == old(self).is_open(),
    {
        if self.queue.len() > 0 {
            let d = self.queue.remove(0);
            proof {
                assert(self@ =~= old(self)@.drop_first());
            }
            Some(d)
        } else {
            None
        }
    }

    /// How many diagnostics wait in the queue.
    pub fn queue_len(&self) -> (r: usize)
        ensures
            r == self@.len(),
    {
        self.queue.len()
    }

    /// Tears down the receiving endpoint: what is already queued stays
    /// readable, but no further delivery succeeds.
    pub fn close(&mut self)
        ensures
            final(self)@ == old(self)@,
            !final(self).is_open(),
    {
        self.alive = false;
    }
}

/// Law (bus ordering): two diagnostics logged through one logger, first `d1`
/// then `d2`, stand in the bus queue with `d1` directly before `d2` once that
/// logger is collected, whatever was delivered earlier. Since `take_next`
/// hands out the queue front first, the consumer observes `d1` before `d2`.
pub proof fn lemma_bus_ordering(q: Seq<DiagView>, p: Seq<DiagView>, d1: DiagView, d2: DiagView)
    ensures
        (q + p.push(d1).push(d2)).len() == q.len() + p.len() + 2,
        (q + p.push(d1).push(d2))[(q.len() + p.len()) as int] == d1,
        (q + p.push(d1).push(d2))[(q.len() + p.len() + 1) as int] == d2,
{
}

/// Law (bus isolation): collecting two loggers, in either order, delivers
/// every diagnostic of both exactly once — the queue grows by exactly the two
/// pending lengths, and as a multiset it is the union of what was already
/// queued and what each logger held. No interleaving of producers loses or
/// invents a diagnostic.
pub proof fn lemma_bus_isolation(q: Seq<DiagView>, p1: Seq<DiagView>, p2: Seq<DiagView>)
    ensures
        ((q + p1) + p2).len() == q.len() + p1.len() + p2.len(),
        ((q + p1) + p2).to_multiset() == q.to_multiset().add(p1.to_multiset()).add(
            p2.to_multiset(),
        ),
        ((q + p1) + p2).to_multiset() == ((q + p2) + p1).to_multiset(),
{
    lemma_multiset_commutative(q + p1, p2);
    lemma_multiset_commutative(q, p1);
    lemma_multiset_commutative(q + p2, p1);
    lemma_multiset_commutative(q, p2);
    assert(((q + p1) + p2).to_multiset() =~= q.to_multiset().add(p1.to_multiset()).add(
        p2.to_multiset(),
    ));
    assert(((q + p2) + p1).to_multiset() =~= q.to_multiset().add(p2.to_multiset()).add(
        p1.to_multiset(),
    ));
    assert(q.to_multiset().add(p1.to_multiset()).add(p2.to_multiset()) =~= q.to_multiset().add(
        p2.to_multiset(),
    ).add(p1.to_multiset()));
}

} // verus!
