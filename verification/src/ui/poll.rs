//! The loop that keeps the window up to date: at every tick it fetches what is new, and after
//! the connection was lost it tries to get it back, ever more slowly.
//!
//! Times are nanoseconds on a monotonic clock. The loop's owner does what an [`Action`] says
//! and reports what came of it by the method that is named for it.

use vstd::prelude::*;

verus! {

/// The time between two ticks.
pub const POLL_INTERVAL: u64 = 2_000_000_000;

/// At every so manyth tick the prekeys are looked after.
pub const PREKEY_REPLENISH_CHECK_EVERY_N_TICKS: u32 = 30;

pub const RECONNECT_INITIAL_BACKOFF: u64 = POLL_INTERVAL;

pub const RECONNECT_MAX_BACKOFF: u64 = 60_000_000_000;

/// Whether there is a connection.
#[derive(Debug, Clone, Copy, PartialEq, Eq, Structural)]
pub enum ConnectionStatus {
    Connected,
    Reconnecting,
}

/// Sets the status. Returns whether it has changed, which is worth an event.
pub fn set_connection_status(status: &mut ConnectionStatus, new_status: ConnectionStatus) -> (changed: bool)
    ensures
        *final(status) == new_status,
        changed == (*old(status) != new_status),
{
    if *status != new_status {
        *status = new_status;
        true
    } else {
        false
    }
}

/// What can go wrong when the server is asked for something.
#[derive(Debug, Clone, Copy, PartialEq, Eq, Structural)]
pub enum AppError {
    /// The connection itself failed.
    Connection,
    NotAcknowledged,
    NoSession,
    UsernameTaken,
    Other,
}

/// Whether the error means that the connection is lost.
pub fn is_connection_error(e: AppError) -> (is: bool)
    ensures
        is == (e is Connection),
{
    e == AppError::Connection
}

/// What a fetch for one contact has brought, in numbers.
#[derive(Debug, Clone, Copy)]
pub struct Received {
    pub messages: usize,
    pub delivered: usize,
    pub wipe_activity: bool,
    pub profile_changes: usize,
}

impl Received {
    /// Whether anything has come.
    pub open spec fn anything(self) -> bool {
        self.messages > 0 || self.delivered > 0 || self.wipe_activity || self.profile_changes > 0
    }
}

/// What is to be done next.
#[derive(Debug, Clone, Copy, PartialEq, Eq, Structural)]
pub enum Action {
    /// Wait for the next tick.
    Wait,
    /// Connect and authenticate.
    Reconnect,
    /// Fetch first contacts.
    ReceiveFirstContacts,
    /// Publish new prekeys if few are left.
    ReplenishPrekeys,
    ListContacts,
    /// Fetch what waits from the contact at this place of the list.
    ReceivePending(usize),
}

/// What is to be done next, and which events the window gets before.
#[derive(Debug, Clone, Copy, PartialEq, Eq, Structural)]
pub struct Directive {
    pub next: Action,
    /// The window is told of the connection's new status.
    pub status_changed: bool,
    /// The window is told that the inbox has changed.
    pub inbox_updated: bool,
}

/// The loop's state.
#[derive(Debug, Clone, Copy)]
pub struct Poller {
    pub tick_count: u32,
    /// How long the next failed attempt to reconnect is waited out.
    pub reconnect_backoff: u64,
    /// When to reconnect next, while there is no connection.
    pub next_reconnect_attempt: Option<u64>,
    pub status: ConnectionStatus,
    /// Whether this tick has brought anything.
    pub changed: bool,
    /// The place of the contact that is fetched from, and the number of contacts.
    pub contact: usize,
    pub contacts: usize,
}

pub open spec fn quiet(next: Action) -> Directive {
    Directive { next, status_changed: false, inbox_updated: false }
}

/// The lesser of two numbers.
pub open spec fn lesser(a: int, b: int) -> int {
    if a < b {
        a
    } else {
        b
    }
}

impl Poller {
    pub open spec fn initial() -> Poller {
        Poller {
            tick_count: 0,
            reconnect_backoff: RECONNECT_INITIAL_BACKOFF,
            next_reconnect_attempt: None,
            status: ConnectionStatus::Connected,
            changed: false,
            contact: 0,
            contacts: 0,
        }
    }

    /// A tick: work, or while there is no connection, an attempt to reconnect once it is due.
    pub open spec fn after_tick(self, now: u64) -> (Poller, Directive) {
        let ticked = Poller {
            tick_count: if self.tick_count == u32::MAX {
                0
            } else {
                (self.tick_count + 1) as u32
            },
            changed: false,
            ..self
        };
        match self.next_reconnect_attempt {
            Some(due) => if now < due {
                (ticked, quiet(Action::Wait))
            } else {
                (ticked, quiet(Action::Reconnect))
            },
            None => (ticked, quiet(Action::ReceiveFirstContacts)),
        }
    }

    /// There is a connection again, and work goes on in the same tick.
    pub open spec fn after_reconnected(self) -> (Poller, Directive) {
        (
            Poller {
                next_reconnect_attempt: None,
                reconnect_backoff: RECONNECT_INITIAL_BACKOFF,
                status: ConnectionStatus::Connected,
                ..self
            },
            Directive {
                next: Action::ReceiveFirstContacts,
                status_changed: self.status != ConnectionStatus::Connected,
                inbox_updated: false,
            },
        )
    }

    /// There is still no connection: the next attempt comes after the backoff, which doubles up
    /// to its greatest value.
    pub open spec fn after_reconnect_failed(self, now: u64) -> (Poller, Directive) {
        (
            Poller {
                next_reconnect_attempt: Some(
                    lesser(now + self.reconnect_backoff, u64::MAX as int) as u64,
                ),
                reconnect_backoff: lesser(
                    2 * self.reconnect_backoff,
                    RECONNECT_MAX_BACKOFF as int,
                ) as u64,
                ..self
            },
            quiet(Action::Wait),
        )
    }

    /// The end of a tick's work.
    pub open spec fn finished(self, connection_died: bool, now: u64) -> (Poller, Directive) {
        if connection_died {
            (
                Poller {
                    next_reconnect_attempt: Some(now),
                    status: ConnectionStatus::Reconnecting,
                    ..self
                },
                Directive {
                    next: Action::Wait,
                    status_changed: self.status != ConnectionStatus::Reconnecting,
                    inbox_updated: self.changed,
                },
            )
        } else {
            (
                self,
                Directive {
                    next: Action::Wait,
                    status_changed: false,
                    inbox_updated: self.changed,
                },
            )
        }
    }

    /// First contacts were fetched, or fetching them has failed.
    pub open spec fn after_first_contacts(
        self,
        outcome: std::result::Result<usize, AppError>,
        now: u64,
    ) -> (Poller, Directive) {
        let heard = Poller {
            changed: self.changed || (outcome matches Ok(new_contacts) && new_contacts > 0),
            ..self
        };
        if outcome matches Err(AppError::Connection) {
            heard.finished(true, now)
        } else if self.tick_count % PREKEY_REPLENISH_CHECK_EVERY_N_TICKS == 0 {
            (heard, quiet(Action::ReplenishPrekeys))
        } else {
            (heard, quiet(Action::ListContacts))
        }
    }

    /// The prekeys were looked after, or that has failed.
    pub open spec fn after_replenish(
        self,
        outcome: std::result::Result<(), AppError>,
        now: u64,
    ) -> (Poller, Directive) {
        if outcome matches Err(AppError::Connection) {
            self.finished(true, now)
        } else {
            (self, quiet(Action::ListContacts))
        }
    }

    /// The contacts were counted; where they could not be listed, the tick is over without
    /// another word.
    pub open spec fn after_contacts(self, contacts: Option<usize>, now: u64) -> (Poller, Directive) {
        match contacts {
            None => (self, quiet(Action::Wait)),
            Some(n) => {
                let listed = Poller { contact: 0, contacts: n, ..self };
                if n == 0 {
                    listed.finished(false, now)
                } else {
                    (listed, quiet(Action::ReceivePending(0)))
                }
            },
        }
    }

    /// The next contact's turn, if there is one.
    pub open spec fn next_contact(self, now: u64) -> (Poller, Directive) {
        if self.contact < self.contacts && self.contact + 1 < self.contacts {
            let next = Poller { contact: (self.contact + 1) as usize, ..self };
            (next, quiet(Action::ReceivePending(next.contact)))
        } else {
            self.finished(false, now)
        }
    }

    /// One contact was fetched from, or that has failed. `mailbox_moved` says that the
    /// conversation has another mailbox than before.
    pub open spec fn after_received(
        self,
        outcome: std::result::Result<Received, AppError>,
        mailbox_moved: bool,
        now: u64,
    ) -> (Poller, Directive) {
        let heard = Poller {
            changed: self.changed || mailbox_moved || (outcome matches Ok(r) && r.anything()),
            ..self
        };
        if outcome matches Err(AppError::Connection) {
            heard.finished(true, now)
        } else {
            heard.next_contact(now)
        }
    }

    /// The loop of an application that has just connected.
    pub fn new() -> (poller: Poller)
        ensures
            poller == Poller::initial(),
    {
        Poller {
            tick_count: 0,
            reconnect_backoff: RECONNECT_INITIAL_BACKOFF,
            next_reconnect_attempt: None,
            status: ConnectionStatus::Connected,
            changed: false,
            contact: 0,
            contacts: 0,
        }
    }

    pub fn on_tick(&mut self, now: u64) -> (directive: Directive)
        ensures
            (*final(self), directive) == old(self).after_tick(now),
    {
        self.tick_count = self.tick_count.wrapping_add(1);
        self.changed = false;
        let next: Action = match self.next_reconnect_attempt {
            Some(due) => if now < due {
                Action::Wait
            } else {
                Action::Reconnect
            },
            None => Action::ReceiveFirstContacts,
        };
        Directive { next, status_changed: false, inbox_updated: false }
    }

    pub fn on_reconnected(&mut self) -> (directive: Directive)
        ensures
            (*final(self), directive) == old(self).after_reconnected(),
    {
        self.next_reconnect_attempt = None;
        self.reconnect_backoff = RECONNECT_INITIAL_BACKOFF;
        let status_changed: bool = set_connection_status(
            &mut self.status,
            ConnectionStatus::Connected,
        );
        Directive { next: Action::ReceiveFirstContacts, status_changed, inbox_updated: false }
    }

    pub fn on_reconnect_failed(&mut self, now: u64) -> (directive: Directive)
        ensures
            (*final(self), directive) == old(self).after_reconnect_failed(now),
    {
        self.next_reconnect_attempt = Some(now.saturating_add(self.reconnect_backoff));
        self.reconnect_backoff = if self.reconnect_backoff < RECONNECT_MAX_BACKOFF / 2 {
            2 * self.reconnect_backoff
        } else {
            RECONNECT_MAX_BACKOFF
        };
        Directive { next: Action::Wait, status_changed: false, inbox_updated: false }
    }

    fn finish(&mut self, connection_died: bool, now: u64) -> (directive: Directive)
        ensures
            (*final(self), directive) == old(self).finished(connection_died, now),
    {
        let mut status_changed: bool = false;
        if connection_died {
            self.next_reconnect_attempt = Some(now);
            status_changed = set_connection_status(
                &mut self.status,
                ConnectionStatus::Reconnecting,
            );
        }
        Directive { next: Action::Wait, status_changed, inbox_updated: self.changed }
    }

    pub fn on_first_contacts(
        &mut self,
        outcome: std::result::Result<usize, AppError>,
        now: u64,
    ) -> (directive: Directive)
        ensures
            (*final(self), directive) == old(self).after_first_contacts(outcome, now),
    {
        match outcome {
            Ok(new_contacts) => {
                if new_contacts > 0 {
                    self.changed = true;
                }
            },
            Err(e) => {
                if is_connection_error(e) {
                    return self.finish(true, now);
                }
            },
        }
        let next: Action = if self.tick_count % PREKEY_REPLENISH_CHECK_EVERY_N_TICKS == 0 {
            Action::ReplenishPrekeys
        } else {
            Action::ListContacts
        };
        Directive { next, status_changed: false, inbox_updated: false }
    }

    pub fn on_replenished(&mut self, outcome: std::result::Result<(), AppError>, now: u64) -> (directive:
        Directive)
        ensures
            (*final(self), directive) == old(self).after_replenish(outcome, now),
    {
        if let Err(e) = outcome {
            if is_connection_error(e) {
                return self.finish(true, now);
            }
        }
        Directive { next: Action::ListContacts, status_changed: false, inbox_updated: false }
    }

    pub fn on_contacts(&mut self, contacts: Option<usize>, now: u64) -> (directive: Directive)
        ensures
            (*final(self), directive) == old(self).after_contacts(contacts, now),
    {
        match contacts {
            None => Directive { next: Action::Wait, status_changed: false, inbox_updated: false },
            Some(n) => {
                self.contact = 0;
                self.contacts = n;
                if n == 0 {
                    self.finish(false, now)
                } else {
                    Directive {
                        next: Action::ReceivePending(0),
                        status_changed: false,
                        inbox_updated: false,
                    }
                }
            },
        }
    }

    pub fn on_received(
        &mut self,
        outcome: std::result::Result<Received, AppError>,
        mailbox_moved: bool,
        now: u64,
    ) -> (directive: Directive)
        ensures
            (*final(self), directive) == old(self).after_received(outcome, mailbox_moved, now),
    {
        let mut died: bool = false;
        match outcome {
            Ok(r) => {
                if r.messages > 0 || r.delivered > 0 || r.wipe_activity || r.profile_changes > 0 {
                    self.changed = true;
                }
            },
            Err(e) => {
                died = is_connection_error(e);
            },
        }
        if mailbox_moved {
            self.changed = true;
        }
        if !died && self.contact < self.contacts && self.contact + 1 < self.contacts {
            self.contact = self.contact + 1;
            Directive {
                next: Action::ReceivePending(self.contact),
                status_changed: false,
                inbox_updated: false,
            }
        } else {
            self.finish(died, now)
        }
    }
}

/// What the loop always keeps: its backoff is within its bounds, and an attempt to reconnect is
/// due exactly while the status says so.
pub open spec fn sound(p: Poller) -> bool {
    &&& RECONNECT_INITIAL_BACKOFF <= p.reconnect_backoff <= RECONNECT_MAX_BACKOFF
    &&& p.next_reconnect_attempt is Some <==> p.status == ConnectionStatus::Reconnecting
}

/// The loop starts sound and stays so, whatever happens. An attempt to reconnect is reported
/// only while one is due.
pub proof fn law_the_loop_stays_sound(
    p: Poller,
    now: u64,
    first: std::result::Result<usize, AppError>,
    replenished: std::result::Result<(), AppError>,
    contacts: Option<usize>,
    received: std::result::Result<Received, AppError>,
    mailbox_moved: bool,
)
    requires
        sound(p),
    ensures
        sound(Poller::initial()),
        sound(p.after_tick(now).0),
        sound(p.after_reconnected().0),
        p.next_reconnect_attempt is Some ==> sound(p.after_reconnect_failed(now).0),
        sound(p.after_first_contacts(first, now).0),
        sound(p.after_replenish(replenished, now).0),
        sound(p.after_contacts(contacts, now).0),
        sound(p.after_received(received, mailbox_moved, now).0),
{
}

/// Without a connection a tick does nothing but wait for the next attempt, or make it.
pub proof fn law_no_work_without_a_connection(p: Poller, now: u64)
    requires
        sound(p),
        p.status == ConnectionStatus::Reconnecting,
    ensures
        p.after_tick(now).1.next == Action::Wait || p.after_tick(now).1.next == Action::Reconnect,
{
}

/// A connection that is lost is tried again at the next tick.
pub proof fn law_a_lost_connection_is_retried(p: Poller, lost: u64, now: u64)
    requires
        lost <= now,
    ensures
        p.finished(true, lost).0.after_tick(now).1.next == Action::Reconnect,
{
}

/// The backoff after so many failed attempts in a row.
pub open spec fn backoff_after(failures: nat) -> int
    decreases failures,
{
    if failures == 0 {
        RECONNECT_INITIAL_BACKOFF as int
    } else {
        lesser(2 * backoff_after((failures - 1) as nat), RECONNECT_MAX_BACKOFF as int)
    }
}

/// The loop after so many attempts to reconnect have failed in a row, at the given times.
pub open spec fn after_failures(p: Poller, times: Seq<u64>) -> Poller
    decreases times.len(),
{
    if times.len() == 0 {
        p
    } else {
        after_failures(p, times.drop_last()).after_reconnect_failed(times.last()).0
    }
}

/// Each failed attempt in a row is waited out twice as long as the one before, up to a minute;
/// a success starts over.
pub proof fn law_backoff_doubles(p: Poller, times: Seq<u64>)
    requires
        p.reconnect_backoff == RECONNECT_INITIAL_BACKOFF,
    ensures
        after_failures(p, times).reconnect_backoff == backoff_after(times.len()),
        after_failures(p, times).after_reconnected().0.reconnect_backoff
            == RECONNECT_INITIAL_BACKOFF,
    decreases times.len(),
{
    if times.len() > 0 {
        law_backoff_doubles(p, times.drop_last());
    }
}

/// The contacts are fetched from one after the other, each once.
pub proof fn law_every_contact_has_its_turn(
    p: Poller,
    received: std::result::Result<Received, AppError>,
    mailbox_moved: bool,
    now: u64,
)
    requires
        !(received matches Err(AppError::Connection)),
        p.contact < p.contacts,
    ensures
        ({
            let (after, directive) = p.after_received(received, mailbox_moved, now);
            if p.contact + 1 < p.contacts {
                directive.next == Action::ReceivePending((p.contact + 1) as usize) && after.contact
                    == p.contact + 1
            } else {
                directive.next == Action::Wait
            }
        }),
{
}

/// A tick counts itself and starts afresh. With a connection it begins with first contacts;
/// without one it reconnects once that is due, and waits before.
pub proof fn law_what_a_tick_begins_with(p: Poller, now: u64)
    ensures
        ({
            let (after, directive) = p.after_tick(now);
            &&& p.tick_count < u32::MAX ==> after.tick_count == p.tick_count + 1
            &&& p.tick_count == u32::MAX ==> after.tick_count == 0
            &&& !after.changed
            &&& p == (Poller { tick_count: p.tick_count, changed: p.changed, ..after })
            &&& !directive.status_changed && !directive.inbox_updated
            &&& match p.next_reconnect_attempt {
                None => directive.next is ReceiveFirstContacts,
                Some(due) => if due <= now {
                    directive.next is Reconnect
                } else {
                    directive.next is Wait
                },
            }
        }),
        ({
            let start = Poller::initial();
            &&& start.tick_count == 0
            &&& start.reconnect_backoff == 2_000_000_000
            &&& start.next_reconnect_attempt is None
            &&& start.status is Connected
            &&& !start.changed
        }),
{
}

/// A connection that is back is shown as such, and the next loss starts with the shortest
/// backoff of two seconds; one that is not back is tried again after the backoff, which doubles
/// up to a minute.
pub proof fn law_what_reconnecting_leads_to(p: Poller, now: u64)
    requires
        now + p.reconnect_backoff <= u64::MAX,
    ensures
        p.after_reconnected() == (
            Poller {
                next_reconnect_attempt: None,
                reconnect_backoff: 2_000_000_000,
                status: ConnectionStatus::Connected,
                ..p
            },
            Directive {
                next: Action::ReceiveFirstContacts,
                status_changed: p.status is Reconnecting,
                inbox_updated: false,
            },
        ),
        ({
            let (after, directive) = p.after_reconnect_failed(now);
            &&& after.next_reconnect_attempt == Some((now + p.reconnect_backoff) as u64)
            &&& after.reconnect_backoff == if p.reconnect_backoff <= 30_000_000_000 {
                2 * p.reconnect_backoff
            } else {
                60_000_000_000
            }
            &&& p == (Poller {
                next_reconnect_attempt: p.next_reconnect_attempt,
                reconnect_backoff: p.reconnect_backoff,
                ..after
            })
            &&& directive == (Directive {
                next: Action::Wait,
                status_changed: false,
                inbox_updated: false,
            })
        }),
{
}

/// Whether this is how a tick ends whose connection is lost: the attempt to reconnect is due at
/// once, the status is reconnecting, and the window hears of what has changed.
pub open spec fn lost(p: Poller, now: u64, after: Poller, directive: Directive) -> bool {
    &&& after == (Poller {
        next_reconnect_attempt: Some(now),
        status: ConnectionStatus::Reconnecting,
        ..p
    })
    &&& directive == (Directive {
        next: Action::Wait,
        status_changed: p.status is Connected,
        inbox_updated: p.changed,
    })
}

/// After first contacts the prekeys are looked after at every thirtieth tick, and the contacts
/// listed otherwise; new contacts count as a change. Looking after the prekeys leads to the
/// contacts too. Of all errors only a failed connection ends the tick.
pub proof fn law_what_follows_first_contacts(
    p: Poller,
    outcome: std::result::Result<usize, AppError>,
    looked_after: std::result::Result<(), AppError>,
    now: u64,
)
    ensures
        ({
            let (after, directive) = p.after_first_contacts(outcome, now);
            let heard = Poller {
                changed: p.changed || (outcome is Ok && outcome->Ok_0 > 0),
                ..p
            };
            if outcome is Err && outcome->Err_0 is Connection {
                lost(heard, now, after, directive)
            } else {
                &&& after == heard
                &&& directive == (Directive {
                    next: if p.tick_count % 30 == 0 {
                        Action::ReplenishPrekeys
                    } else {
                        Action::ListContacts
                    },
                    status_changed: false,
                    inbox_updated: false,
                })
            }
        }),
        ({
            let (after, directive) = p.after_replenish(looked_after, now);
            if looked_after is Err && looked_after->Err_0 is Connection {
                lost(p, now, after, directive)
            } else {
                &&& after == p
                &&& directive == (Directive {
                    next: Action::ListContacts,
                    status_changed: false,
                    inbox_updated: false,
                })
            }
        }),
{
}

/// The contacts are fetched from one after the other, from the first; behind the last the tick
/// ends, and the window is told if anything has come. What counts is a message, a delivery, a
/// wipe, a change of a profile, or that the mailbox has moved.
pub proof fn law_what_follows_the_contacts(
    p: Poller,
    contacts: Option<usize>,
    outcome: std::result::Result<Received, AppError>,
    mailbox_moved: bool,
    now: u64,
)
    ensures
        ({
            let (after, directive) = p.after_contacts(contacts, now);
            match contacts {
                None => after == p && directive == (Directive {
                    next: Action::Wait,
                    status_changed: false,
                    inbox_updated: false,
                }),
                Some(n) => {
                    &&& after == (Poller { contact: 0, contacts: n, ..p })
                    &&& !directive.status_changed
                    &&& n == 0 ==> directive.next is Wait && directive.inbox_updated == p.changed
                    &&& n > 0 ==> directive.next == Action::ReceivePending(0)
                        && !directive.inbox_updated
                },
            }
        }),
        ({
            let (after, directive) = p.after_received(outcome, mailbox_moved, now);
            let brought = match outcome {
                Ok(r) => r.messages > 0 || r.delivered > 0 || r.wipe_activity || r.profile_changes
                    > 0,
                Err(_) => false,
            };
            let heard = Poller { changed: p.changed || mailbox_moved || brought, ..p };
            if outcome is Err && outcome->Err_0 is Connection {
                lost(heard, now, after, directive)
            } else if p.contact + 1 < p.contacts {
                &&& after == (Poller { contact: (p.contact + 1) as usize, ..heard })
                &&& directive == (Directive {
                    next: Action::ReceivePending((p.contact + 1) as usize),
                    status_changed: false,
                    inbox_updated: false,
                })
            } else {
                &&& after == heard
                &&& directive == (Directive {
                    next: Action::Wait,
                    status_changed: false,
                    inbox_updated: heard.changed,
                })
            }
        }),
{
}

/// Each event moves the loop as it is stated of that event; a change of status is told exactly
/// where it is one; and of all errors one means that the connection is lost.
pub proof fn law_events_move_the_loop(
    p: &mut Poller,
    tick: Directive,
    q: &mut Poller,
    back: Directive,
    r: &mut Poller,
    failed: Directive,
    now: u64,
    status: &mut ConnectionStatus,
    new_status: ConnectionStatus,
    told: bool,
    e: AppError,
    is_lost: bool,
    fresh: Poller,
)
    requires
        call_ensures(Poller::on_tick, (p, now), tick),
        call_ensures(Poller::on_reconnected, (q,), back),
        call_ensures(Poller::on_reconnect_failed, (r, now), failed),
        call_ensures(set_connection_status, (status, new_status), told),
        call_ensures(is_connection_error, (e,), is_lost),
        call_ensures(Poller::new, (), fresh),
    ensures
        (*final(p), tick) == old(p).after_tick(now),
        (*final(q), back) == old(q).after_reconnected(),
        (*final(r), failed) == old(r).after_reconnect_failed(now),
        *final(status) == new_status,
        told <==> *old(status) != new_status,
        is_lost <==> e is Connection,
        fresh == Poller::initial(),
{
}

/// Each outcome of a step of work moves the loop as it is stated of that step.
pub proof fn law_outcomes_move_the_loop(
    p: &mut Poller,
    first: std::result::Result<usize, AppError>,
    after_first: Directive,
    q: &mut Poller,
    replenished: std::result::Result<(), AppError>,
    after_replenished: Directive,
    r: &mut Poller,
    contacts: Option<usize>,
    after_contacts: Directive,
    s: &mut Poller,
    received: std::result::Result<Received, AppError>,
    moved: bool,
    after_received: Directive,
    now: u64,
)
    requires
        call_ensures(Poller::on_first_contacts, (p, first, now), after_first),
        call_ensures(Poller::on_replenished, (q, replenished, now), after_replenished),
        call_ensures(Poller::on_contacts, (r, contacts, now), after_contacts),
        call_ensures(Poller::on_received, (s, received, moved, now), after_received),
    ensures
        (*final(p), after_first) == old(p).after_first_contacts(first, now),
        (*final(q), after_replenished) == old(q).after_replenish(replenished, now),
        (*final(r), after_contacts) == old(r).after_contacts(contacts, now),
        (*final(s), after_received) == old(s).after_received(received, moved, now),
{
}

} // verus!
