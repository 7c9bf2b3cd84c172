//! Commands to the disc controller without interrupts.
//!
//! A run says which access to the controller comes next and is told what the
//! access read. It saves the interrupt mask and clears what is left over, hands
//! parameters and the command over, watches the interrupt flags, collects the
//! reply, and puts the mask back.

use vstd::prelude::*;

use crate::io::cdrom::{Response, IRQ_ACK, IRQ_COMPLETE, IRQ_ERROR, RESPONSE_CAPACITY};

verus! {

/// All interrupt flags.
pub const IRQ_ACK_ALL: u8 = 0x1F;

/// An access to the controller.
#[derive(Clone, Copy, Debug, PartialEq, Eq, Structural)]
pub enum Access {
    /// Read the interrupt mask.
    ReadIrqEnable,
    /// Write the interrupt mask.
    WriteIrqEnable(u8),
    /// Acknowledge interrupt flags.
    AckIrq(u8),
    /// Read the interrupt flags.
    ReadIrqFlag,
    /// Read the controller status.
    ReadStatus,
    /// Read a byte of a reply.
    ReadResponse,
    /// Empty the parameters.
    ClearParameters,
    /// Write a parameter.
    WriteParameter(u8),
    /// Write the command.
    WriteCommand(u8),
    /// Nothing; the run is over.
    Nothing,
}

/// How a run waits.
#[derive(Clone, Copy, Debug, PartialEq, Eq, Structural)]
pub enum Patience {
    /// For a reply, as long as it takes. An error is a reply too.
    Endless,
    /// For a reply, for a number of looks.
    Bounded,
    /// For a reply and then for completion, each for a number of looks.
    UntilComplete,
}

/// Why bytes of a reply are read.
#[derive(Clone, Copy, Debug, PartialEq, Eq, Structural)]
pub enum Purpose {
    /// Left over from before.
    Leftover,
    /// They came with another interrupt.
    Stray,
    /// They are the reply.
    Reply,
    /// They came with the acknowledgement, completion being waited for.
    Acknowledged,
    /// They came with completion.
    Completed,
    /// The run ends, well or not.
    Leaving(bool),
}

/// What a run is about to do.
#[derive(Clone, Copy, Debug, PartialEq, Eq, Structural)]
pub enum Phase {
    SaveMask,
    Mask,
    AckBefore,
    /// See whether there is a byte to read.
    Drain(Purpose),
    /// Read it.
    Take(Purpose),
    /// Acknowledge what was drained.
    Ack(Purpose),
    Clear,
    /// See whether there is room for a parameter.
    Offer,
    Parameter,
    Command,
    Watch,
    /// Put the mask back.
    Restore(bool),
    Over(bool),
}

/// A run of a command.
#[derive(Clone, Copy, Debug)]
pub struct CommandRun {
    pub patience: Patience,
    pub code: u8,
    /// Looks that a wait takes at most.
    pub limit: u32,
    pub phase: Phase,
    /// Looks left of the current wait.
    pub spins: u32,
    /// Parameters handed over.
    pub sent: usize,
    /// The mask to put back.
    pub enable: u8,
    /// The interrupt that came.
    pub irq: u8,
    /// The interrupt that is waited for.
    pub expected: u8,
    pub reply: Response,
}

/// A run with its reply taken as a sequence of bytes.
pub struct RunView {
    pub patience: Patience,
    pub code: u8,
    pub limit: u32,
    pub phase: Phase,
    pub spins: u32,
    pub sent: usize,
    pub enable: u8,
    pub irq: u8,
    pub expected: u8,
    pub reply: Seq<u8>,
}

impl View for CommandRun {
    type V = RunView;

    open spec fn view(&self) -> RunView {
        RunView {
            patience: self.patience,
            code: self.code,
            limit: self.limit,
            phase: self.phase,
            spins: self.spins,
            sent: self.sent,
            enable: self.enable,
            irq: self.irq,
            expected: self.expected,
            reply: self.reply@,
        }
    }
}

/// The flags that are acknowledged after bytes were drained.
pub open spec fn acknowledged(run: RunView, purpose: Purpose) -> u8 {
    match purpose {
        Purpose::Stray | Purpose::Reply => run.irq,
        Purpose::Acknowledged => IRQ_ACK,
        Purpose::Completed => IRQ_COMPLETE,
        Purpose::Leftover | Purpose::Leaving(_) => IRQ_ACK_ALL,
    }
}

/// The access that comes next.
pub open spec fn access_of(run: RunView, params: Seq<u8>) -> Access {
    match run.phase {
        Phase::SaveMask => Access::ReadIrqEnable,
        Phase::Mask => Access::WriteIrqEnable(0),
        Phase::AckBefore => Access::AckIrq(IRQ_ACK_ALL),
        Phase::Drain(_) | Phase::Offer => Access::ReadStatus,
        Phase::Take(_) => Access::ReadResponse,
        Phase::Ack(purpose) => Access::AckIrq(acknowledged(run, purpose)),
        Phase::Clear => Access::ClearParameters,
        Phase::Parameter => Access::WriteParameter(params[run.sent as int]),
        Phase::Command => Access::WriteCommand(run.code),
        Phase::Watch => Access::ReadIrqFlag,
        Phase::Restore(_) => Access::WriteIrqEnable(run.enable),
        Phase::Over(_) => Access::Nothing,
    }
}

/// Drain bytes for a purpose.
pub open spec fn draining(run: RunView, purpose: Purpose) -> RunView {
    RunView { phase: Phase::Drain(purpose), reply: Seq::empty(), ..run }
}

/// Hand the next parameter over, or the command if there is none left. Every
/// parameter gets a wait of its own.
pub open spec fn offering(run: RunView, params: Seq<u8>) -> RunView {
    if run.sent < params.len() {
        RunView { phase: Phase::Offer, spins: run.limit, ..run }
    } else {
        RunView { phase: Phase::Command, ..run }
    }
}

/// A look that did not settle a wait: go on watching, or give up.
pub open spec fn watched_once(run: RunView) -> RunView {
    if run.patience == Patience::Endless {
        RunView { phase: Phase::Watch, ..run }
    } else if run.spins == 0 {
        given_up(run)
    } else {
        RunView { phase: Phase::Watch, spins: (run.spins - 1) as u32, ..run }
    }
}

/// A wait for an interrupt failed. A run that only waits for a reply stops
/// there and then, with the interrupts masked.
pub open spec fn given_up(run: RunView) -> RunView {
    if run.patience == Patience::UntilComplete {
        draining(run, Purpose::Leaving(false))
    } else {
        RunView { phase: Phase::Over(false), ..run }
    }
}

/// A wait for room failed.
pub open spec fn no_room(run: RunView) -> RunView {
    if run.patience == Patience::UntilComplete {
        draining(run, Purpose::Leaving(false))
    } else {
        RunView { phase: Phase::Restore(false), ..run }
    }
}

/// The run after the interrupt flags were read.
pub open spec fn flag_seen(run: RunView, flag: u8) -> RunView {
    let seen = RunView { irq: flag, ..run };
    if flag == run.expected || flag == IRQ_ERROR && run.patience == Patience::Endless {
        if run.patience != Patience::UntilComplete {
            draining(seen, Purpose::Reply)
        } else if flag == IRQ_ACK {
            draining(seen, Purpose::Acknowledged)
        } else {
            draining(seen, Purpose::Completed)
        }
    } else if flag == IRQ_ERROR {
        given_up(run)
    } else if flag != 0 {
        draining(seen, Purpose::Stray)
    } else {
        watched_once(run)
    }
}

/// The run after flags were acknowledged.
pub open spec fn acked(run: RunView, purpose: Purpose) -> RunView {
    match purpose {
        Purpose::Leftover => RunView { phase: Phase::Clear, ..run },
        Purpose::Stray => watched_once(run),
        Purpose::Reply => RunView { phase: Phase::Restore(true), ..run },
        Purpose::Acknowledged => RunView {
            phase: Phase::Watch,
            expected: IRQ_COMPLETE,
            spins: run.limit,
            ..run
        },
        Purpose::Completed => draining(run, Purpose::Leaving(true)),
        Purpose::Leaving(well) => RunView { phase: Phase::Restore(well), ..run },
    }
}

/// Whether bit `weight` of a byte is set.
pub open spec fn has(byte: u8, weight: int) -> bool {
    (byte as int / weight) % 2 == 1
}

/// The run after its next access, `byte` being what a read gave.
pub open spec fn after(run: RunView, params: Seq<u8>, byte: u8) -> RunView {
    match run.phase {
        Phase::SaveMask => RunView {
            enable: (byte as int % 32) as u8,
            phase: Phase::Mask,
            ..run
        },
        Phase::Mask => RunView { phase: Phase::AckBefore, ..run },
        Phase::AckBefore => draining(run, Purpose::Leftover),
        Phase::Drain(purpose) => if has(byte, 32) && run.reply.len() < RESPONSE_CAPACITY {
            RunView { phase: Phase::Take(purpose), ..run }
        } else if purpose == Purpose::Leftover {
            RunView { phase: Phase::Clear, ..run }
        } else {
            RunView { phase: Phase::Ack(purpose), ..run }
        },
        Phase::Take(purpose) => RunView {
            phase: Phase::Drain(purpose),
            reply: if run.reply.len() < RESPONSE_CAPACITY {
                run.reply.push(byte)
            } else {
                run.reply
            },
            ..run
        },
        Phase::Ack(purpose) => acked(run, purpose),
        Phase::Clear => offering(run, params),
        Phase::Offer => if has(byte, 16) {
            RunView { phase: Phase::Parameter, ..run }
        } else if run.patience == Patience::Endless {
            run
        } else if run.spins == 0 {
            no_room(run)
        } else {
            RunView { spins: (run.spins - 1) as u32, ..run }
        },
        Phase::Parameter => offering(RunView { sent: (run.sent + 1) as usize, ..run }, params),
        Phase::Command => RunView { phase: Phase::Watch, spins: run.limit, ..run },
        Phase::Watch => flag_seen(run, (byte as int % 32) as u8),
        Phase::Restore(well) => RunView { phase: Phase::Over(well), ..run },
        Phase::Over(_) => run,
    }
}

impl CommandRun {
    /// What holds of a run: a parameter is written only if there is one.
    pub open spec fn wf(&self, params: Seq<u8>) -> bool {
        &&& self.sent <= params.len()
        &&& (self.phase == Phase::Offer || self.phase == Phase::Parameter) ==> self.sent
            < params.len()
    }

    /// Begin a run.
    pub fn new(patience: Patience, code: u8, limit: u32) -> (run: CommandRun)
        ensures
            run@ == (RunView {
                patience,
                code,
                limit,
                phase: Phase::SaveMask,
                spins: limit,
                sent: 0,
                enable: 0,
                irq: 0,
                expected: IRQ_ACK,
                reply: Seq::empty(),
            }),
            forall|params: Seq<u8>| #[trigger] run.wf(params),
    {
        CommandRun {
            patience,
            code,
            limit,
            phase: Phase::SaveMask,
            spins: limit,
            sent: 0,
            enable: 0,
            irq: 0,
            expected: IRQ_ACK,
            reply: Response::new(),
        }
    }

    /// The access that comes next.
    pub fn access(&self, params: &[u8]) -> (access: Access)
        requires
            self.wf(params@),
        ensures
            access == access_of(self@, params@),
    {
        match self.phase {
            Phase::SaveMask => Access::ReadIrqEnable,
            Phase::Mask => Access::WriteIrqEnable(0),
            Phase::AckBefore => Access::AckIrq(IRQ_ACK_ALL),
            Phase::Drain(_) | Phase::Offer => Access::ReadStatus,
            Phase::Take(_) => Access::ReadResponse,
            Phase::Ack(purpose) => Access::AckIrq(
                match purpose {
                    Purpose::Stray | Purpose::Reply => self.irq,
                    Purpose::Acknowledged => IRQ_ACK,
                    Purpose::Completed => IRQ_COMPLETE,
                    Purpose::Leftover | Purpose::Leaving(_) => IRQ_ACK_ALL,
                },
            ),
            Phase::Clear => Access::ClearParameters,
            Phase::Parameter => Access::WriteParameter(params[self.sent]),
            Phase::Command => Access::WriteCommand(self.code),
            Phase::Watch => Access::ReadIrqFlag,
            Phase::Restore(_) => Access::WriteIrqEnable(self.enable),
            Phase::Over(_) => Access::Nothing,
        }
    }

    fn drain(&mut self, purpose: Purpose)
        ensures
            final(self)@ == draining(old(self)@, purpose),
    {
        self.phase = Phase::Drain(purpose);
        self.reply = Response::new();
    }

    fn offer(&mut self, params: &[u8])
        requires
            old(self).sent <= params@.len(),
        ensures
            final(self)@ == offering(old(self)@, params@),
            final(self).wf(params@),
    {
        if self.sent < params.len() {
            self.phase = Phase::Offer;
            self.spins = self.limit;
        } else {
            self.phase = Phase::Command;
        }
    }

    fn endless(&self) -> (endless: bool)
        ensures
            endless == (self.patience == Patience::Endless),
    {
        match self.patience {
            Patience::Endless => true,
            _ => false,
        }
    }

    fn until_complete(&self) -> (complete: bool)
        ensures
            complete == (self.patience == Patience::UntilComplete),
    {
        match self.patience {
            Patience::UntilComplete => true,
            _ => false,
        }
    }

    fn give_up(&mut self)
        ensures
            final(self)@ == given_up(old(self)@),
    {
        if self.until_complete() {
            self.drain(Purpose::Leaving(false));
        } else {
            self.phase = Phase::Over(false);
        }
    }

    fn watch_on(&mut self)
        ensures
            final(self)@ == watched_once(old(self)@),
    {
        if self.endless() {
            self.phase = Phase::Watch;
        } else if self.spins == 0 {
            self.give_up();
        } else {
            self.phase = Phase::Watch;
            self.spins = self.spins - 1;
        }
    }

    fn see_flag(&mut self, flag: u8)
        ensures
            final(self)@ == flag_seen(old(self)@, flag),
    {
        if flag == self.expected || flag == IRQ_ERROR && self.endless() {
            self.irq = flag;
            if !self.until_complete() {
                self.drain(Purpose::Reply);
            } else if flag == IRQ_ACK {
                self.drain(Purpose::Acknowledged);
            } else {
                self.drain(Purpose::Completed);
            }
        } else if flag == IRQ_ERROR {
            self.give_up();
        } else if flag != 0 {
            self.irq = flag;
            self.drain(Purpose::Stray);
        } else {
            self.watch_on();
        }
    }

    fn acked(&mut self, purpose: Purpose)
        ensures
            final(self)@ == acked(old(self)@, purpose),
    {
        match purpose {
            Purpose::Leftover => {
                self.phase = Phase::Clear;
            },
            Purpose::Stray => {
                self.watch_on();
            },
            Purpose::Reply => {
                self.phase = Phase::Restore(true);
            },
            Purpose::Acknowledged => {
                self.phase = Phase::Watch;
                self.expected = IRQ_COMPLETE;
                self.spins = self.limit;
            },
            Purpose::Completed => {
                self.drain(Purpose::Leaving(true));
            },
            Purpose::Leaving(well) => {
                self.phase = Phase::Restore(well);
            },
        }
    }

    /// Take in what the access read; any byte if it read nothing.
    pub fn step(&mut self, params: &[u8], byte: u8)
        requires
            old(self).wf(params@),
        ensures
            final(self)@ == after(old(self)@, params@, byte),
            final(self).wf(params@),
    {
        match self.phase {
            Phase::SaveMask => {
                self.enable = byte % 32;
                self.phase = Phase::Mask;
            },
            Phase::Mask => {
                self.phase = Phase::AckBefore;
            },
            Phase::AckBefore => {
                self.drain(Purpose::Leftover);
            },
            Phase::Drain(purpose) => {
                if self.reply.wants_more(byte) {
                    self.phase = Phase::Take(purpose);
                } else {
                    self.phase = match purpose {
                        Purpose::Leftover => Phase::Clear,
                        _ => Phase::Ack(purpose),
                    };
                }
            },
            Phase::Take(purpose) => {
                self.phase = Phase::Drain(purpose);
                if self.reply.len() < RESPONSE_CAPACITY {
                    self.reply = self.reply.with(byte);
                }
            },
            Phase::Ack(purpose) => {
                self.acked(purpose);
            },
            Phase::Clear => {
                self.offer(params);
            },
            Phase::Offer => {
                if (byte / 16) % 2 == 1 {
                    self.phase = Phase::Parameter;
                } else if !self.endless() {
                    if self.spins == 0 {
                        if self.until_complete() {
                            self.drain(Purpose::Leaving(false));
                        } else {
                            self.phase = Phase::Restore(false);
                        }
                    } else {
                        self.spins = self.spins - 1;
                    }
                }
            },
            Phase::Parameter => {
                assert(params@.len() == params.len());
                self.sent = self.sent + 1;
                self.offer(params);
            },
            Phase::Command => {
                self.phase = Phase::Watch;
                self.spins = self.limit;
            },
            Phase::Watch => {
                self.see_flag(byte % 32);
            },
            Phase::Restore(well) => {
                self.phase = Phase::Over(well);
            },
            Phase::Over(_) => {},
        }
    }

    /// The reply, once the run has ended well.
    pub fn reply(&self) -> (reply: Option<Response>)
        ensures
            reply is Some == (self.phase == Phase::Over(true)),
            reply is Some ==> (reply->0)@ == self@.reply,
    {
        match self.phase {
            Phase::Over(true) => Some(self.reply),
            _ => None,
        }
    }
}

/// A run ends well only by putting the interrupt mask back that it found.
pub proof fn ending_well_restores_the_mask(run: RunView, params: Seq<u8>, byte: u8)
    requires
        after(run, params, byte).phase == Phase::Over(true),
        run.phase != Phase::Over(true),
    ensures
        run.phase == Phase::Restore(true),
        access_of(run, params) == Access::WriteIrqEnable(run.enable),
{
}

/// A run and its controller: the interrupt mask in effect, and whether the
/// command was written.
pub struct Attached {
    pub run: RunView,
    pub mask: u8,
    pub dispatched: bool,
}

/// A run and its controller after the next access.
pub open spec fn attached_after(at: Attached, params: Seq<u8>, byte: u8) -> Attached {
    let access = access_of(at.run, params);
    Attached {
        run: after(at.run, params, byte),
        mask: match access {
            Access::WriteIrqEnable(mask) => mask,
            _ => at.mask,
        },
        dispatched: at.dispatched || access is WriteCommand,
    }
}

/// A run and its controller after as many accesses as there are answers.
pub open spec fn attached_after_all(at: Attached, params: Seq<u8>, answers: Seq<u8>) -> Attached
    decreases answers.len(),
{
    if answers.len() == 0 {
        at
    } else {
        attached_after(
            attached_after_all(at, params, answers.drop_last()),
            params,
            answers.last(),
        )
    }
}

/// Whether bytes are read before the command is written.
spec fn is_early(purpose: Purpose) -> bool {
    purpose == Purpose::Leftover
}

/// Whether bytes are read by a run that does not wait for completion.
spec fn is_plain(purpose: Purpose) -> bool {
    purpose == Purpose::Stray || purpose == Purpose::Reply
}

/// What a run and its controller keep to, `found` being the mask at the start.
spec fn mask_kept(at: Attached, found: u8) -> bool {
    let waits = at.run.patience == Patience::UntilComplete;
    match at.run.phase {
        Phase::SaveMask | Phase::Mask => at.mask == found && !at.dispatched,
        Phase::AckBefore
        | Phase::Clear
        | Phase::Offer
        | Phase::Parameter
        | Phase::Command => at.mask == 0 && !at.dispatched,
        Phase::Watch => at.mask == 0 && at.dispatched,
        Phase::Drain(purpose) | Phase::Take(purpose) | Phase::Ack(purpose) => {
            &&& at.mask == 0
            &&& is_early(purpose) ==> !at.dispatched
            &&& !is_early(purpose) && !(purpose is Leaving) ==> at.dispatched
            &&& !is_early(purpose) && !waits ==> is_plain(purpose)
        },
        Phase::Restore(well) => {
            &&& at.mask == 0
            &&& !waits ==> well == at.dispatched
        },
        Phase::Over(well) => if !waits && !well && at.dispatched {
            at.mask == 0
        } else {
            &&& at.mask == at.run.enable
            &&& !waits && well ==> at.dispatched
        },
    }
}

proof fn access_keeps_the_mask(at: Attached, params: Seq<u8>, byte: u8, found: u8)
    requires
        mask_kept(at, found),
    ensures
        mask_kept(attached_after(at, params, byte), found),
        attached_after(at, params, byte).run.patience == at.run.patience,
{
    let next = attached_after(at, params, byte);
    match at.run.phase {
        Phase::Ack(purpose) => {
            match purpose {
                Purpose::Leftover => {},
                Purpose::Stray => {},
                Purpose::Reply => {},
                Purpose::Acknowledged => {},
                Purpose::Completed => {},
                Purpose::Leaving(_) => {},
            }
        },
        _ => {},
    }
}

proof fn accesses_keep_the_mask(at: Attached, params: Seq<u8>, answers: Seq<u8>, found: u8)
    requires
        mask_kept(at, found),
    ensures
        mask_kept(attached_after_all(at, params, answers), found),
        attached_after_all(at, params, answers).run.patience == at.run.patience,
    decreases answers.len(),
{
    if answers.len() > 0 {
        accesses_keep_the_mask(at, params, answers.drop_last(), found);
        access_keeps_the_mask(
            attached_after_all(at, params, answers.drop_last()),
            params,
            answers.last(),
            found,
        );
    }
}

/// Whatever the controller answers, a run for a reply that wrote its command and
/// then fails leaves the interrupts masked, so that a late answer interrupts
/// nobody: once the command is written, the mask is written again only by a run
/// that ends well. Every other run that ends puts the mask back that it found.
pub proof fn timeout_leaves_interrupts_masked(
    run: RunView,
    params: Seq<u8>,
    answers: Seq<u8>,
    found: u8,
)
    requires
        run.phase == Phase::SaveMask,
    ensures
        ({
            let end = attached_after_all(
                Attached { run, mask: found, dispatched: false },
                params,
                answers,
            );
            let waits = run.patience == Patience::UntilComplete;
            &&& !waits && end.dispatched && access_of(end.run, params) is WriteIrqEnable
                ==> end.run.phase == Phase::Restore(true)
            &&& match end.run.phase {
                Phase::Over(well) => if !waits && !well && end.dispatched {
                    end.mask == 0
                } else {
                    end.mask == end.run.enable
                },
                Phase::SaveMask | Phase::Mask => end.mask == found,
                _ => end.mask == 0,
            }
        }),
{
    accesses_keep_the_mask(
        Attached { run, mask: found, dispatched: false },
        params,
        answers,
        found,
    );
}

/// A bounded run for a reply that hears nothing in time fails.
pub proof fn silence_ends_a_bounded_run(run: RunView, params: Seq<u8>, byte: u8)
    requires
        run.phase == Phase::Watch,
        run.patience == Patience::Bounded,
        run.spins == 0,
        byte as int % 32 == 0,
        run.expected == IRQ_ACK,
    ensures
        after(run, params, byte).phase == Phase::Over(false),
{
}

/// The mask that a run found does not change after it was saved.
pub proof fn saved_mask_stays(run: RunView, params: Seq<u8>, byte: u8)
    requires
        run.phase != Phase::SaveMask,
    ensures
        after(run, params, byte).enable == run.enable,
        after(run, params, byte).phase != Phase::SaveMask,
{
}

/// How far a bounded run is from its end: stages, then looks, then bytes and
/// small steps.
pub open spec fn distance(run: RunView, params: Seq<u8>) -> (int, int, int) {
    let looks = run.spins as int;
    let bytes = 2 * (RESPONSE_CAPACITY - run.reply.len());
    let left = params.len() - run.sent;
    let second: int = if run.patience == Patience::UntilComplete && run.expected == IRQ_ACK {
        20
    } else {
        0
    };
    match run.phase {
        Phase::SaveMask => (100 + left + second, 0, 9),
        Phase::Mask => (100 + left + second, 0, 8),
        Phase::AckBefore => (100 + left + second, 0, 7),
        Phase::Drain(Purpose::Leftover) => (90 + left + second, 0, bytes + 1),
        Phase::Take(Purpose::Leftover) => (90 + left + second, 0, bytes),
        Phase::Ack(Purpose::Leftover) => (80 + left + second, 0, 1),
        Phase::Clear => (80 + left + second, 0, 0),
        Phase::Offer => (50 + left + second, looks + 1, 0),
        Phase::Parameter => (50 + left + second, 0, 0),
        Phase::Command => (50 + second, 0, 0),
        Phase::Watch => (30 + second, looks, 50),
        Phase::Drain(Purpose::Stray) => (30 + second, looks, bytes + 3),
        Phase::Take(Purpose::Stray) => (30 + second, looks, bytes + 2),
        Phase::Ack(Purpose::Stray) => (30 + second, looks, 1),
        Phase::Drain(Purpose::Acknowledged) => (27 + second, 0, bytes + 3),
        Phase::Take(Purpose::Acknowledged) => (27 + second, 0, bytes + 2),
        Phase::Ack(Purpose::Acknowledged) => (27 + second, 0, 1),
        Phase::Drain(Purpose::Completed) => (20, 0, bytes + 3),
        Phase::Take(Purpose::Completed) => (20, 0, bytes + 2),
        Phase::Ack(Purpose::Completed) => (20, 0, 1),
        Phase::Drain(Purpose::Reply) => (10, 0, bytes + 3),
        Phase::Take(Purpose::Reply) => (10, 0, bytes + 2),
        Phase::Ack(Purpose::Reply) => (10, 0, 1),
        Phase::Drain(Purpose::Leaving(_)) => (8, 0, bytes + 3),
        Phase::Take(Purpose::Leaving(_)) => (8, 0, bytes + 2),
        Phase::Ack(Purpose::Leaving(_)) => (8, 0, 1),
        Phase::Restore(_) => (5, 0, 0),
        Phase::Over(_) => (0, 0, 0),
    }
}

/// Whether one distance is shorter than another.
pub open spec fn shorter(a: (int, int, int), b: (int, int, int)) -> bool {
    a.0 < b.0 || a.0 == b.0 && (a.1 < b.1 || a.1 == b.1 && a.2 < b.2)
}

/// What holds of a run that takes at most `RESPONSE_CAPACITY` bytes a time and
/// waits for acknowledgement first.
pub open spec fn run_sound(run: RunView, params: Seq<u8>) -> bool {
    &&& run.sent <= params.len() <= usize::MAX
    &&& (run.phase == Phase::Offer || run.phase == Phase::Parameter) ==> run.sent < params.len()
    &&& run.reply.len() <= RESPONSE_CAPACITY
    &&& forall|purpose: Purpose|
        run.phase == Phase::Take(purpose) ==> run.reply.len() < RESPONSE_CAPACITY
    &&& run.expected == IRQ_ACK || run.expected == IRQ_COMPLETE && run.patience
        == Patience::UntilComplete
    &&& run.phase == Phase::Drain(Purpose::Acknowledged) || run.phase == Phase::Take(
        Purpose::Acknowledged,
    ) || run.phase == Phase::Ack(Purpose::Acknowledged) ==> run.expected == IRQ_ACK
        && run.patience == Patience::UntilComplete
}

/// What every access must lead to.
spec fn progressed(run: RunView, next: RunView, params: Seq<u8>) -> bool {
    run_sound(next, params) && shorter(distance(next, params), distance(run, params))
}

proof fn watching_makes_progress(run: RunView, params: Seq<u8>, flag: u8)
    requires
        run_sound(run, params),
        run.patience != Patience::Endless,
        run.phase == Phase::Watch,
    ensures
        progressed(run, flag_seen(run, flag), params),
{
    let next = flag_seen(run, flag);
    if flag == run.expected {
        if run.patience != Patience::UntilComplete {
            assert(next.phase == Phase::Drain(Purpose::Reply));
        } else if flag == IRQ_ACK {
            assert(next.phase == Phase::Drain(Purpose::Acknowledged));
        } else {
            assert(next.phase == Phase::Drain(Purpose::Completed));
        }
    } else if flag == IRQ_ERROR {
        assert(next == given_up(run));
    } else if flag != 0 {
        assert(next.phase == Phase::Drain(Purpose::Stray));
    } else {
        assert(next == watched_once(run));
    }
}

proof fn acking_makes_progress(run: RunView, params: Seq<u8>, purpose: Purpose)
    requires
        run_sound(run, params),
        run.patience != Patience::Endless,
        run.phase == Phase::Ack(purpose),
    ensures
        progressed(run, acked(run, purpose), params),
{
    match purpose {
        Purpose::Leftover => {},
        Purpose::Stray => {},
        Purpose::Reply => {},
        Purpose::Acknowledged => {},
        Purpose::Completed => {},
        Purpose::Leaving(_) => {},
    }
}

proof fn draining_makes_progress(run: RunView, params: Seq<u8>, byte: u8, purpose: Purpose)
    requires
        run_sound(run, params),
        run.phase == Phase::Drain(purpose) || run.phase == Phase::Take(purpose),
    ensures
        progressed(run, after(run, params, byte), params),
{
    match purpose {
        Purpose::Leftover => {},
        Purpose::Stray => {},
        Purpose::Reply => {},
        Purpose::Acknowledged => {},
        Purpose::Completed => {},
        Purpose::Leaving(_) => {},
    }
}

/// Every access brings a bounded run nearer to its end, whatever the controller
/// answers, so every bounded run ends.
pub proof fn every_access_makes_progress(run: RunView, params: Seq<u8>, byte: u8)
    requires
        run_sound(run, params),
        run.patience != Patience::Endless,
        match run.phase {
            Phase::Over(_) => false,
            _ => true,
        },
    ensures
        run_sound(after(run, params, byte), params),
        shorter(distance(after(run, params, byte), params), distance(run, params)),
        0 <= distance(run, params).0,
        0 <= distance(run, params).1,
        0 <= distance(run, params).2,
{
    match run.phase {
        Phase::Watch => {
            watching_makes_progress(run, params, (byte as int % 32) as u8);
        },
        Phase::Ack(purpose) => {
            acking_makes_progress(run, params, purpose);
        },
        Phase::Drain(purpose) => {
            draining_makes_progress(run, params, byte, purpose);
        },
        Phase::Take(purpose) => {
            draining_makes_progress(run, params, byte, purpose);
        },
        _ => {},
    }
}

} // verus!
