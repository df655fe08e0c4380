//! Keying the transmitter, and the watchdog that will not let it stay keyed.
//!
//! A [`Ptt`] is anything that can put a radio into transmit and take it out again. The
//! backends differ only in how they say it: a serial line's RTS or DTR, the radio's own CAT
//! command, a CM108-class sound-card interface's GPIO pin, a rig-control daemon over TCP,
//! or nothing at all when the operator is using VOX.
//!
//! # The watchdog is not optional
//!
//! Software that keys a transmitter can fail while it is keyed. What is on the air then is a
//! carrier, on a shared band, for as long as nobody notices. [`PttWatchdog`] therefore wraps
//! every backend and enforces a maximum key time in one place, and a trip **latches**: after
//! it fires, keying is refused until something calls [`PttWatchdog::unkey`]. A runaway loop
//! that keeps asking to transmit is exactly the failure this exists to contain, so it must not
//! be able to re-key by asking again. Nothing here depends on a backend behaving; the latch is
//! enforced on this side of the trait.
//!
//! Times are microseconds of the station's clock.
use vstd::prelude::*;

use crate::text::{cat, chars_of, quote, quoted};

pub mod cat;
pub mod gpio;
pub mod ports;
pub mod rigctld;
pub mod wiring;

pub use crate::ptt::cat::CatProtocol;
pub use crate::ptt::gpio::{gpio_report, instance_key, is_gpio_codec, GpioInterfaceInfo};
pub use crate::ptt::ports::{SerialLine, SerialPortInfo};

verus! {

/// Anything that went wrong keying a radio.
#[derive(Clone, PartialEq, Eq, Debug)]
pub enum PttError {
    /// The backend refused or the device is gone.
    Backend(String),
    /// The watchdog has tripped and has not been cleared.
    WatchdogTripped,
}

impl PttError {
    /// The error in a sentence.
    pub open spec fn words(self) -> Seq<char> {
        match self {
            PttError::Backend(message) => "keying: "@ + message@,
            PttError::WatchdogTripped => "the key-time watchdog tripped and the transmitter was released; it stays released until the software asks again from a clean state"@,
        }
    }

    /// The error in a sentence.
    pub fn text(&self) -> (r: String)
        ensures
            r@ == self.words(),
    {
        match self {
            PttError::Backend(message) => cat("keying: ", message),
            PttError::WatchdogTripped => "the key-time watchdog tripped and the transmitter was released; it stays released until the software asks again from a clean state".to_owned(),
        }
    }
}

/// What is said where there is no way to tune the radio.
pub open spec fn cannot_tune() -> Seq<char> {
    "the keying interface has no way to ask; tuning takes CAT on the radio's own port, or rigctld"@
}

/// Something that can key a transmitter.
pub trait Ptt: Send {
    /// Put the radio into transmit. An error if the backend refuses or the device is gone.
    fn key(&mut self) -> Result<(), PttError>;

    /// Take the radio out of transmit. An error if the backend refuses or the device is gone.
    fn unkey(&mut self) -> Result<(), PttError>;

    /// What this backend is, for a log line or a status display.
    fn describe(&self) -> String;

    /// The radio's frequency in hertz, when this backend has a way to ask.
    fn frequency_hz(&mut self) -> (r: Option<u64>)
        default_ensures
            r is None,
    {
        None
    }

    /// Why this interface cannot key, when it cannot. `None` for one that works.
    ///
    /// A station holding a faulted interface still runs and still receives; it simply
    /// cannot transmit, and says why rather than pretending the radio is there.
    fn fault(&self) -> (r: Option<String>)
        default_ensures
            r is None,
    {
        None
    }

    /// Whether `set_frequency_hz` has a way to ask: CAT and `rigctld` do.
    fn can_tune(&self) -> (r: bool)
        default_ensures
            !r,
    {
        false
    }

    /// Tune the radio to `hz`, when this backend has a way to ask. An error if it has none (a
    /// keying line, a GPIO pin, nothing at all), or the radio refused.
    fn set_frequency_hz(&mut self, hz: u64) -> (r: Result<(), PttError>)
        default_ensures
            r matches Err(PttError::Backend(m)) && m@ == cannot_tune(),
    {
        Err(
            PttError::Backend(
                "the keying interface has no way to ask; tuning takes CAT on the radio's own port, or rigctld".to_owned(),
            ),
        )
    }
}

impl<P: Ptt + ?Sized> Ptt for Box<P> {
    fn key(&mut self) -> (r: Result<(), PttError>)
        ensures
            exists|b: &mut P|
                &*b == &**old(self) && &*final(b) == &**final(self) && #[trigger] call_ensures(P::key, (b,), r),
    {
        let inner: &mut P = &mut **self;
        let r = inner.key();
        r
    }

    fn unkey(&mut self) -> (r: Result<(), PttError>)
        ensures
            exists|b: &mut P|
                &*b == &**old(self) && &*final(b) == &**final(self) && #[trigger] call_ensures(P::unkey, (b,), r),
    {
        let inner: &mut P = &mut **self;
        let r = inner.unkey();
        r
    }

    fn describe(&self) -> (r: String)
        ensures
            call_ensures(P::describe, (&**self,), r),
    {
        (**self).describe()
    }

    fn frequency_hz(&mut self) -> (r: Option<u64>)
        ensures
            exists|b: &mut P|
                &*b == &**old(self) && &*final(b) == &**final(self) && #[trigger] call_ensures(P::frequency_hz, (b,), r),
    {
        let inner: &mut P = &mut **self;
        let r = inner.frequency_hz();
        r
    }

    fn fault(&self) -> (r: Option<String>)
        ensures
            call_ensures(P::fault, (&**self,), r),
    {
        (**self).fault()
    }

    fn can_tune(&self) -> (r: bool)
        ensures
            call_ensures(P::can_tune, (&**self,), r),
    {
        (**self).can_tune()
    }

    fn set_frequency_hz(&mut self, hz: u64) -> (r: Result<(), PttError>)
        ensures
            exists|b: &mut P|
                &*b == &**old(self) && &*final(b) == &**final(self) && #[trigger] call_ensures(
                    P::set_frequency_hz,
                    (b, hz),
                    r,
                ),
    {
        let inner: &mut P = &mut **self;
        let r = inner.set_frequency_hz(hz);
        r
    }
}

/// No keying at all: for VOX, for a receive-only station, and for tests.
#[derive(Clone, Copy, Debug)]
pub struct NullPtt {
    /// Whether `key` was the last thing called.
    pub keyed: bool,
}

impl Default for NullPtt {
    /// Not keyed.
    fn default() -> (r: NullPtt)
        ensures
            !r.keyed,
    {
        NullPtt { keyed: false }
    }
}

impl Ptt for NullPtt {
    fn key(&mut self) -> (r: Result<(), PttError>)
        ensures
            r is Ok,
            final(self).keyed,
    {
        self.keyed = true;
        Ok(())
    }

    fn unkey(&mut self) -> (r: Result<(), PttError>)
        ensures
            r is Ok,
            !final(self).keyed,
    {
        self.keyed = false;
        Ok(())
    }

    fn describe(&self) -> (r: String)
        ensures
            r@ == "none (vox or receive only)"@,
    {
        "none (vox or receive only)".to_owned()
    }
}

/// A keying interface that could not be opened, kept so the daemon can start anyway.
///
/// Refusing to start over a serial port that is not there traps the operator: the Setup
/// screen that names the port is served by this very daemon. The daemon therefore starts with
/// this instead, and the panel comes up with the reason on it.
///
/// Nothing reaches the air. `key` fails with the original reason, and the station copies
/// no audio to the sound card until keying has succeeded.
#[derive(Clone, Debug)]
pub struct BrokenPtt {
    reason: String,
}

impl BrokenPtt {
    /// Why the interface could not be opened.
    pub closed spec fn why(self) -> Seq<char> {
        self.reason@
    }

    /// A faulted interface that will explain itself every time it is asked.
    pub fn new(reason: &str) -> (r: BrokenPtt)
        ensures
            r.why() == reason@,
    {
        BrokenPtt { reason: reason.to_owned() }
    }
}

impl Ptt for BrokenPtt {
    fn key(&mut self) -> (r: Result<(), PttError>)
        ensures
            r matches Err(PttError::Backend(m)) && m@ == old(self).why(),
            final(self).why() == old(self).why(),
    {
        Err(PttError::Backend(self.reason.clone()))
    }

    /// Releasing something that was never keyed is not a failure, and must not be one:
    /// the run loop unkeys on paths where an error would be noise about nothing.
    fn unkey(&mut self) -> (r: Result<(), PttError>)
        ensures
            r is Ok,
            final(self).why() == old(self).why(),
    {
        Ok(())
    }

    fn describe(&self) -> (r: String)
        ensures
            r@ == "unavailable — "@ + self.why(),
    {
        cat("unavailable — ", &self.reason)
    }

    fn fault(&self) -> (r: Option<String>)
        ensures
            r matches Some(m) && m@ == self.why(),
    {
        Some(self.reason.clone())
    }
}

/// What a watchdog poll found.
#[derive(Clone, Copy, PartialEq, Eq, Structural, Debug)]
pub enum WatchdogState {
    /// Not transmitting.
    Idle,
    /// Transmitting, within the limit.
    Keyed,
    /// The limit was exceeded just now and the key was released.
    Tripped,
}

/// How the key stands.
pub struct KeyClock {
    /// Longest a single transmission may last.
    pub limit_us: u64,
    /// When the key went down, while it is down.
    pub since: Option<u64>,
    /// Whether the watchdog has fired and not been cleared.
    pub tripped: bool,
    /// How many times it has fired.
    pub trips: usize,
}

impl KeyClock {
    /// How the key stands once it was asked for at `now`, and the backend, if it was asked,
    /// took it or did not.
    pub open spec fn after_key(self, now: u64, taken: bool) -> KeyClock {
        if self.tripped || self.since is Some || !taken {
            self
        } else {
            KeyClock { since: Some(now), ..self }
        }
    }

    /// How the key stands once it was released, whatever the backend said.
    pub open spec fn after_unkey(self) -> KeyClock {
        KeyClock { since: None, tripped: false, ..self }
    }

    /// Whether the key has been down for the limit or longer.
    pub open spec fn overdue(self, now: u64) -> bool {
        match self.since {
            Some(since) => now - since >= self.limit_us,
            None => false,
        }
    }

    /// How the key stands once the clock was looked at.
    pub open spec fn after_poll(self, now: u64) -> KeyClock {
        if self.overdue(now) {
            KeyClock {
                since: None,
                tripped: true,
                trips: if self.trips < usize::MAX { (self.trips + 1) as usize } else { self.trips },
                ..self
            }
        } else {
            self
        }
    }
}

/// A maximum key time, enforced over any backend.
///
/// A trip latches: keying is refused until [`PttWatchdog::unkey`] is called.
#[derive(Debug)]
pub struct PttWatchdog<P: Ptt> {
    inner: P,
    max_key_us: u64,
    keyed_since: Option<u64>,
    tripped: bool,
    trips: usize,
}

impl<P: Ptt> PttWatchdog<P> {
    /// How the key stands.
    pub closed spec fn clock(self) -> KeyClock {
        KeyClock { limit_us: self.max_key_us, since: self.keyed_since, tripped: self.tripped, trips: self.trips }
    }

    /// The backend.
    pub closed spec fn backend(self) -> P {
        self.inner
    }

    /// Wrap a backend with a maximum key time. A watchdog that can never let anything be sent
    /// is a mistake: the time is positive.
    pub fn new(inner: P, max_key_us: u64) -> (r: PttWatchdog<P>)
        requires
            max_key_us > 0,
        ensures
            r.backend() == inner,
            r.clock() == (KeyClock { limit_us: max_key_us, since: None, tripped: false, trips: 0 }),
    {
        PttWatchdog { inner, max_key_us, keyed_since: None, tripped: false, trips: 0 }
    }

    /// The longest a single transmission may last.
    pub fn max_key_us(&self) -> (r: u64)
        ensures
            r == self.clock().limit_us,
    {
        self.max_key_us
    }

    /// Change the longest a single transmission may last, from now on.
    pub fn set_max_key_us(&mut self, max_key_us: u64)
        ensures
            final(self).clock() == (KeyClock { limit_us: max_key_us, ..old(self).clock() }),
            final(self).backend() == old(self).backend(),
    {
        self.max_key_us = max_key_us;
    }

    /// How many times the watchdog has fired since the daemon started.
    pub fn trips(&self) -> (r: usize)
        ensures
            r == self.clock().trips,
    {
        self.trips
    }

    /// Whether the transmitter is keyed.
    pub fn is_keyed(&self) -> (r: bool)
        ensures
            r == (self.clock().since is Some),
    {
        self.keyed_since.is_some()
    }

    /// Whether the watchdog has fired and not yet been cleared.
    pub fn is_tripped(&self) -> (r: bool)
        ensures
            r == self.clock().tripped,
    {
        self.tripped
    }

    /// How long the current transmission has been running.
    pub fn keyed_for(&self, now: u64) -> (r: u64)
        ensures
            r == match self.clock().since {
                Some(since) => if now >= since { now - since } else { 0 },
                None => 0,
            },
    {
        match self.keyed_since {
            Some(since) => if now >= since { now - since } else { 0 },
            None => 0,
        }
    }

    /// What the backend is.
    pub fn describe(&self) -> (r: String)
        ensures
            call_ensures(P::describe, (&self.backend(),), r),
    {
        self.inner.describe()
    }

    /// Why the backend cannot key, when it cannot.
    pub fn fault(&self) -> (r: Option<String>)
        ensures
            call_ensures(P::fault, (&self.backend(),), r),
    {
        self.inner.fault()
    }

    /// Whether the backend can tune the radio.
    pub fn can_tune(&self) -> (r: bool)
        ensures
            call_ensures(P::can_tune, (&self.backend(),), r),
    {
        self.inner.can_tune()
    }

    /// Key the transmitter. An error if the watchdog has tripped and not been cleared, or the
    /// backend refuses.
    ///
    /// Keying while already keyed does not restart the clock: a burst that is transmitted as
    /// several calls is still one transmission as far as the radio is concerned, and letting
    /// each call reset the limit would defeat the whole thing. The backend is asked only where
    /// the key is up and the latch is clear.
    pub fn key(&mut self, now: u64) -> (r: Result<(), PttError>)
        ensures
            final(self).clock() == old(self).clock().after_key(now, r is Ok),
            old(self).clock().tripped ==> (r matches Err(e) && e is WatchdogTripped),
            !old(self).clock().tripped && old(self).clock().since is Some ==> r is Ok,
            old(self).clock().tripped || old(self).clock().since is Some ==> final(self).backend() == old(self).backend(),
            !old(self).clock().tripped && old(self).clock().since is None ==> exists|b: &mut P|
                *b == old(self).backend() && *final(b) == final(self).backend() && #[trigger] call_ensures(
                    P::key,
                    (b,),
                    r,
                ),
    {
        if self.tripped {
            return Err(PttError::WatchdogTripped);
        }
        if self.keyed_since.is_some() {
            return Ok(());
        }
        let result = self.inner.key();
        if result.is_ok() {
            self.keyed_since = Some(now);
        }
        result
    }

    /// Release the transmitter, and clear a trip. An error if the backend refuses.
    ///
    /// The watchdog's state is cleared either way: a backend that cannot be told to stop is a
    /// reason to report loudly, not a reason to stay latched into believing the radio is still
    /// ours to key.
    pub fn unkey(&mut self, now: u64) -> (r: Result<(), PttError>)
        ensures
            final(self).clock() == old(self).clock().after_unkey(),
            exists|b: &mut P|
                *b == old(self).backend() && *final(b) == final(self).backend() && #[trigger] call_ensures(
                    P::unkey,
                    (b,),
                    r,
                ),
    {
        let result = self.inner.unkey();
        self.keyed_since = None;
        self.tripped = false;
        result
    }

    /// Check the clock; release the key if the limit has been passed. An error if the key had
    /// to be released and the backend refused.
    ///
    /// The run loop calls this every time round, whatever else it is doing.
    pub fn poll(&mut self, now: u64) -> (r: Result<WatchdogState, PttError>)
        ensures
            final(self).clock() == old(self).clock().after_poll(now),
            old(self).clock().since is None ==> r == Ok::<WatchdogState, PttError>(WatchdogState::Idle),
            old(self).clock().since is Some && !old(self).clock().overdue(now) ==> r == Ok::<WatchdogState, PttError>(
                WatchdogState::Keyed,
            ),
            old(self).clock().overdue(now) ==> exists|b: &mut P, u: Result<(), PttError>|
                {
                    &&& *b == old(self).backend()
                    &&& *final(b) == final(self).backend()
                    &&& #[trigger] call_ensures(P::unkey, (b,), u)
                    &&& match u {
                        Ok(_) => r == Ok::<WatchdogState, PttError>(WatchdogState::Tripped),
                        Err(e) => r == Err::<WatchdogState, PttError>(e),
                    }
                },
            !old(self).clock().overdue(now) ==> final(self).backend() == old(self).backend(),
    {
        let since: u64 = match self.keyed_since {
            Some(since) => since,
            None => return Ok(WatchdogState::Idle),
        };
        if now < since || now - since < self.max_key_us {
            return Ok(WatchdogState::Keyed);
        }
        let result = self.inner.unkey();
        self.keyed_since = None;
        self.tripped = true;
        if self.trips < usize::MAX {
            self.trips = self.trips + 1;
        }
        match result {
            Ok(_) => Ok(WatchdogState::Tripped),
            Err(e) => Err(e),
        }
    }

    /// The backend, for a caller that needs to look at it.
    pub fn inner(&self) -> (r: &P)
        ensures
            *r == self.backend(),
    {
        &self.inner
    }

    /// The backend, for a caller that needs to ask it something. The clock is not touched.
    pub fn inner_mut(&mut self) -> (r: &mut P)
        ensures
            *r == old(self).backend(),
            final(self).backend() == *final(r),
            final(self).clock() == old(self).clock(),
    {
        &mut self.inner
    }
}

/// Something that happens to the key.
pub enum KeyEvent {
    /// It is asked for; the backend, if it is asked, takes it or not.
    Key { now: u64, taken: bool },
    /// The clock is looked at.
    Poll { now: u64 },
    /// It is released.
    Unkey,
}

/// How the key stands after something happened.
pub open spec fn key_step(c: KeyClock, e: KeyEvent) -> KeyClock {
    match e {
        KeyEvent::Key { now, taken } => c.after_key(now, taken),
        KeyEvent::Poll { now } => c.after_poll(now),
        KeyEvent::Unkey => c.after_unkey(),
    }
}

/// How the key stands after a run of things happened.
pub open spec fn key_run(c: KeyClock, events: Seq<KeyEvent>) -> KeyClock
    decreases events.len(),
{
    if events.len() == 0 {
        c
    } else {
        key_step(key_run(c, events.drop_last()), events.last())
    }
}

/// A trip latches: whatever is asked and however often the clock is looked at, a tripped key
/// stays up and tripped until it is released.
pub proof fn a_trip_latches(c: KeyClock, events: Seq<KeyEvent>)
    requires
        c.tripped,
        c.since is None,
        forall|i: int| 0 <= i < events.len() ==> !((#[trigger] events[i]) is Unkey),
    ensures
        key_run(c, events).tripped,
        key_run(c, events).since is None,
    decreases events.len(),
{
    if events.len() > 0 {
        assert(!(events.last() is Unkey));
        assert forall|i: int| 0 <= i < events.drop_last().len() implies !((#[trigger] events.drop_last()[i]) is Unkey) by {
            assert(events.drop_last()[i] == events[i]);
        }
        a_trip_latches(c, events.drop_last());
    }
}

/// A key that is tripped is up: no run of events leaves it down and tripped at once.
pub proof fn a_tripped_key_is_up(c: KeyClock, events: Seq<KeyEvent>)
    requires
        c.tripped ==> c.since is None,
    ensures
        key_run(c, events).tripped ==> key_run(c, events).since is None,
    decreases events.len(),
{
    if events.len() > 0 {
        a_tripped_key_is_up(c, events.drop_last());
    }
}

/// Keying again does not restart the clock: asking any number of times leaves a key that is
/// down as it was, and the first look at the clock past the limit releases it.
pub proof fn keying_again_does_not_restart_the_clock(c: KeyClock, events: Seq<KeyEvent>, now: u64)
    requires
        c.since is Some,
        c.limit_us > 0,
        now >= c.since->0 + c.limit_us,
        forall|i: int| 0 <= i < events.len() ==> (#[trigger] events[i]) is Key,
    ensures
        key_run(c, events) == c,
        c.after_poll(now).since is None,
        c.after_poll(now).tripped,
    decreases events.len(),
{
    if events.len() > 0 {
        assert(events.last() is Key);
        assert forall|i: int| 0 <= i < events.drop_last().len() implies (#[trigger] events.drop_last()[i]) is Key by {
            assert(events.drop_last()[i] == events[i]);
        }
        keying_again_does_not_restart_the_clock(c, events.drop_last(), now);
    }
}

/// A refused key does not start the clock, and a release always leaves the key up and clear.
pub proof fn refusal_and_release_leave_the_key_up(c: KeyClock, now: u64)
    ensures
        c.after_key(now, false) == c,
        c.after_unkey().since is None,
        !c.after_unkey().tripped,
        c.after_unkey().after_key(now, true).since == Some(now),
{
}

/// Whether a character can go on the air in a callsign.
pub open spec fn callsign_char(c: char) -> bool {
    'A' <= c <= 'Z' || '0' <= c <= '9' || c == '-' || c == '/'
}

/// What is wrong with a callsign, if something is.
pub open spec fn callsign_fault(call: Seq<char>) -> Option<Seq<char>> {
    if call.len() == 0 {
        Some("it is empty"@)
    } else if call.len() > 9 {
        Some("it is longer than nine characters"@)
    } else if exists|i: int| 0 <= i < call.len() && !callsign_char(#[trigger] call[i]) {
        Some("only A-Z, 0-9, - and / can go on the air"@)
    } else {
        None
    }
}

/// Check that a callsign is one the protocol can carry.
///
/// The link layer packs callsigns six bits per character into seven bytes, so anything
/// outside `A–Z 0–9 - /` or longer than nine characters cannot go on the air at all. Better
/// to say so when the configuration is read than when the first connection is attempted.
pub fn validate_callsign(call: &str) -> (r: Result<(), PttError>)
    ensures
        match callsign_fault(call@) {
            None => r is Ok,
            Some(why) => r matches Err(PttError::Backend(m)) && m@ == "callsign "@ + quoted(call@) + ": "@ + why,
        },
{
    let chars = chars_of(call);
    let mut m = cat("callsign ", &quote(call));
    m.append(": ");
    if chars.len() == 0 {
        m.append("it is empty");
        return Err(PttError::Backend(m));
    }
    if chars.len() > 9 {
        m.append("it is longer than nine characters");
        return Err(PttError::Backend(m));
    }
    let mut i: usize = 0;
    while i < chars.len()
        invariant
            i <= chars.len(),
            chars@ == call@,
            0 < chars@.len() <= 9,
            m@ == "callsign "@ + quoted(call@) + ": "@,
            forall|j: int| 0 <= j < i ==> callsign_char(#[trigger] chars@[j]),
        decreases chars.len() - i,
    {
        let c: char = chars[i];
        if !(('A' <= c && c <= 'Z') || ('0' <= c && c <= '9') || c == '-' || c == '/') {
            m.append("only A-Z, 0-9, - and / can go on the air");
            return Err(PttError::Backend(m));
        }
        i += 1;
    }
    Ok(())
}

} // verus!
