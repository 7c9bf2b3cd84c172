//! What a command run sends, and what it collects.

use vstd::prelude::*;

use crate::io::polled::{
    access_of, acked, after, attached_after, attached_after_all, flag_seen, Access, Attached,
    Patience, Phase, Purpose, RunView,
};

verus! {

/// The parameters and commands that a run writes while it gets its answers.
pub open spec fn sent_over(at: Attached, params: Seq<u8>, answers: Seq<u8>) -> Seq<Access>
    decreases answers.len(),
{
    if answers.len() == 0 {
        Seq::empty()
    } else {
        let earlier = answers.drop_last();
        let before = sent_over(at, params, earlier);
        let access = access_of(attached_after_all(at, params, earlier).run, params);
        if access is WriteParameter || access is WriteCommand {
            before.push(access)
        } else {
            before
        }
    }
}

/// The first `n` parameters as accesses.
pub open spec fn parameter_writes(params: Seq<u8>, n: int) -> Seq<Access> {
    Seq::new(n as nat, |k: int| Access::WriteParameter(params[k]))
}

/// What a run keeps to: the parameters before the command, the command once.
spec fn in_order(at: Attached, params: Seq<u8>, code: u8, log: Seq<Access>) -> bool {
    let run = at.run;
    &&& run.code == code
    &&& run.sent <= params.len()
    &&& log == parameter_writes(params, run.sent as int) + if at.dispatched {
        seq![Access::WriteCommand(code)]
    } else {
        Seq::empty()
    }
    &&& at.dispatched ==> run.sent == params.len()
    &&& match run.phase {
        Phase::SaveMask | Phase::Mask | Phase::AckBefore | Phase::Clear => !at.dispatched,
        Phase::Offer | Phase::Parameter => !at.dispatched && run.sent < params.len(),
        Phase::Command => !at.dispatched && run.sent == params.len(),
        Phase::Watch => at.dispatched,
        Phase::Drain(purpose) | Phase::Take(purpose) | Phase::Ack(purpose) => match purpose {
            Purpose::Leftover => !at.dispatched,
            Purpose::Leaving(_) => true,
            _ => at.dispatched,
        },
        Phase::Restore(_) | Phase::Over(_) => true,
    }
}

proof fn order_is_kept(at: Attached, params: Seq<u8>, code: u8, log: Seq<Access>, byte: u8)
    requires
        in_order(at, params, code, log),
        params.len() <= usize::MAX,
    ensures
        ({
            let access = access_of(at.run, params);
            in_order(
                attached_after(at, params, byte),
                params,
                code,
                if access is WriteParameter || access is WriteCommand {
                    log.push(access)
                } else {
                    log
                },
            )
        }),
{
    let run = at.run;
    let next = attached_after(at, params, byte);
    match run.phase {
        Phase::Parameter => {
            let n = run.sent as int;
            assert(log =~= parameter_writes(params, n));
            assert(log.push(Access::WriteParameter(params[n])) =~= parameter_writes(params, n + 1));
            assert(parameter_writes(params, n + 1) + Seq::<Access>::empty() =~= parameter_writes(
                params,
                n + 1,
            ));
        },
        Phase::Command => {
            let all = parameter_writes(params, params.len() as int);
            assert(log =~= all);
            assert(log.push(Access::WriteCommand(code)) =~= all + seq![
                Access::WriteCommand(code),
            ]);
        },
        _ => {},
    }
}

/// Whatever the controller answers, a run writes its parameters in order, each
/// once, and its command once, behind all of them.
pub proof fn parameters_go_before_the_command(
    run: RunView,
    params: Seq<u8>,
    answers: Seq<u8>,
    found: u8,
)
    requires
        run.phase == Phase::SaveMask,
        run.sent == 0,
        params.len() <= usize::MAX,
    ensures
        ({
            let start = Attached { run, mask: found, dispatched: false };
            let now = attached_after_all(start, params, answers);
            let log = sent_over(start, params, answers);
            &&& now.run.sent <= params.len()
            &&& !now.dispatched ==> log == parameter_writes(params, now.run.sent as int)
            &&& now.dispatched ==> log == parameter_writes(params, params.len() as int).push(
                Access::WriteCommand(run.code),
            )
        }),
{
    let start = Attached { run, mask: found, dispatched: false };
    order_along(start, run, params, answers);
    let now = attached_after_all(start, params, answers);
    let log = sent_over(start, params, answers);
    assert(!now.dispatched ==> log =~= parameter_writes(params, now.run.sent as int));
    assert(now.dispatched ==> log =~= parameter_writes(params, params.len() as int).push(
        Access::WriteCommand(run.code),
    ));
}

proof fn order_along(start: Attached, run: RunView, params: Seq<u8>, answers: Seq<u8>)
    requires
        start.run == run,
        !start.dispatched,
        run.phase == Phase::SaveMask,
        run.sent == 0,
        params.len() <= usize::MAX,
    ensures
        in_order(
            attached_after_all(start, params, answers),
            params,
            run.code,
            sent_over(start, params, answers),
        ),
    decreases answers.len(),
{
    if answers.len() == 0 {
        assert(sent_over(start, params, answers) =~= parameter_writes(params, 0) + Seq::<
            Access,
        >::empty());
    } else {
        let earlier = answers.drop_last();
        order_along(start, run, params, earlier);
        order_is_kept(
            attached_after_all(start, params, earlier),
            params,
            run.code,
            sent_over(start, params, earlier),
            answers.last(),
        );
    }
}

/// Bytes of a reply line up in the order in which they are read, up to sixteen,
/// as long as the controller has more; the reply that a run leaves with is what
/// it read behind the awaited interrupt.
pub proof fn reply_bytes_line_up(run: RunView, params: Seq<u8>, purpose: Purpose, byte: u8)
    ensures
        run.phase == Phase::Take(purpose) && run.reply.len() < 16 ==> {
            let next = after(run, params, byte);
            &&& next.reply.len() == run.reply.len() + 1
            &&& next.reply.last() == byte
            &&& next.reply.drop_last() == run.reply
            &&& next.phase == Phase::Drain(purpose)
        },
        run.phase == Phase::Drain(purpose) ==> {
            let next = after(run, params, byte);
            &&& next.reply == run.reply
            &&& next.phase == Phase::Take(purpose) <==> byte & 0x20 != 0 && run.reply.len() < 16
        },
        run.phase == Phase::Ack(Purpose::Reply) ==> after(run, params, byte).reply == run.reply
            && after(run, params, byte).phase == Phase::Restore(true),
{
    assert((byte / 32) % 2 == 1 <==> byte & 0x20 != 0) by (bit_vector);
    if run.phase == Phase::Take(purpose) && run.reply.len() < 16 {
        assert(run.reply.push(byte).drop_last() =~= run.reply);
    }
}

/// A run that waits for a reply gets it with the acknowledgement, one that waits
/// for completion with the interrupt behind it; an error ends a bounded run, and
/// any other interrupt is acknowledged and waited past.
pub proof fn awaited_interrupts_count(run: RunView, flag: u8)
    requires
        run.expected == 3 || run.expected == 2,
    ensures
        ({
            let next = flag_seen(run, flag);
            &&& flag == run.expected && run.patience != Patience::UntilComplete ==> next.phase
                == Phase::Drain(Purpose::Reply)
            &&& flag == run.expected && flag == 3 && run.patience == Patience::UntilComplete
                ==> next.phase == Phase::Drain(Purpose::Acknowledged)
            &&& flag == run.expected && flag == 2 && run.patience == Patience::UntilComplete
                ==> next.phase == Phase::Drain(Purpose::Completed)
            &&& flag == 5 && run.patience == Patience::Bounded ==> next.phase == Phase::Over(false)
            &&& flag != run.expected && flag != 5 && flag != 0 ==> next.phase == Phase::Drain(
                Purpose::Stray,
            ) && next.irq == flag
            &&& flag == 0 && run.patience == Patience::Endless ==> next.phase == Phase::Watch
        }),
        acked(run, Purpose::Acknowledged).expected == 2,
        acked(run, Purpose::Acknowledged).phase == Phase::Watch,
        acked(run, Purpose::Acknowledged).spins == run.limit,
{
}

} // verus!
