//! Sending single commands and listening for what comes back.
use vstd::prelude::*;

use crate::session::telemetry::keepalive_due;
use crate::session::{DeviceSession, SessionError};

verus! {

use crate::crypto::KeysView;
use crate::protocol::{fields_of, law_tlv_bytes_of_one_field, law_tlv_size, tlv_bytes, Field};
use crate::session::telemetry::KEEPALIVE_SECS;
use crate::session::{
    carries, encrypted_packet, is_packet_for, law_encrypted_packet_bytes, opens_to, packet_of,
};

/// How long to wait for each notification after a command, in milliseconds.
pub const RESPONSE_TIMEOUT_MS: u64 = 3000;

/// How long listening waits for one notification, in milliseconds.
pub const LISTEN_TIMEOUT_MS: u64 = 60000;

/// The fields of a bare command.
pub open spec fn command_fields() -> Seq<Field> {
    seq![(0xA1u8, seq![0x21u8])]
}

impl DeviceSession {
    /// The packet of a bare command.
    pub fn command_packet(&self, group: u8, cmd: u16) -> (r: Result<Vec<u8>, SessionError>)
        ensures
            packet_of(r) == encrypted_packet(self@.keys, group, cmd, command_fields()),
            r is Err <==> self@.keys is Absent,
            r matches Ok(packet) ==> carries(
                packet@,
                self@.keys,
                group,
                cmd,
                seq![0xA1u8, 0x01u8, 0x21u8],
            ) && opens_to(packet@, self@.keys, seq![0xA1u8, 0x01u8, 0x21u8]),
    {
        proof {
            law_tlv_size(command_fields());
            lemma_command_message();
        }
        let items: [(u8, &[u8]); 1] = [(0xA1u8, [0x21u8].as_slice())];
        assert(fields_of(items@) =~~= command_fields());
        self.send_encrypted(group, cmd, items.as_slice())
    }
}

/// How far a list of commands has come.
#[derive(Debug, Clone, Copy, PartialEq, Eq, Structural)]
pub enum CommandStep {
    /// The command with this index is next.
    Send { index: usize },
    /// The command with this index has been sent; `got_any` tells whether a notification has
    /// come since.
    Await { index: usize, got_any: bool },
    /// All commands have been sent, and notifications are to be listened for.
    Listen,
    /// A notification has been listened for.
    Listening,
    /// All commands have been sent.
    Finished,
    /// A command could not be sent.
    Failed { error: SessionError },
}

/// What is to be done next.
pub enum CommandAction {
    /// Write the packet, then wait for a notification for `RESPONSE_TIMEOUT_MS`.
    Exchange { packet: Vec<u8> },
    /// Wait for a notification for `RESPONSE_TIMEOUT_MS`.
    Receive,
    /// Nothing: the command has been answered.
    Proceed,
    /// Tell that the command was not answered.
    ReportSilence,
    /// Note the time: all commands have been sent and listening begins.
    BeginListening,
    /// Wait for a notification for `LISTEN_TIMEOUT_MS`.
    Listen,
    /// Note the time and send a keepalive; it does not matter whether that works.
    Keepalive,
    /// Nothing more is to be done.
    Complete,
    /// Give up.
    Abort { error: SessionError },
}

/// What `CommandAction` stands for.
#[verifier::ext_equal]
pub enum CommandActionView {
    Exchange { packet: Seq<u8> },
    Receive,
    Proceed,
    ReportSilence,
    BeginListening,
    Listen,
    Keepalive,
    Complete,
    Abort { error: SessionError },
}

impl View for CommandAction {
    type V = CommandActionView;

    open spec fn view(&self) -> CommandActionView {
        match *self {
            CommandAction::Exchange { packet } => CommandActionView::Exchange { packet: packet@ },
            CommandAction::Receive => CommandActionView::Receive,
            CommandAction::Proceed => CommandActionView::Proceed,
            CommandAction::ReportSilence => CommandActionView::ReportSilence,
            CommandAction::BeginListening => CommandActionView::BeginListening,
            CommandAction::Listen => CommandActionView::Listen,
            CommandAction::Keepalive => CommandActionView::Keepalive,
            CommandAction::Complete => CommandActionView::Complete,
            CommandAction::Abort { error } => CommandActionView::Abort { error },
        }
    }
}

/// The next step and action; `heard` tells whether the wait that `step` stands for brought a
/// notification, and `elapsed_secs` how long ago the last keepalive was or listening began.
pub open spec fn command_next(
    keys: KeysView,
    step: CommandStep,
    heard: bool,
    elapsed_secs: u64,
    cmds: Seq<u16>,
    group: u8,
    listen: bool,
) -> (CommandStep, CommandActionView) {
    match step {
        CommandStep::Send { index } => if index < cmds.len() {
            match encrypted_packet(keys, group, cmds[index as int], command_fields()) {
                Ok(packet) => (
                    CommandStep::Await { index, got_any: false },
                    CommandActionView::Exchange { packet },
                ),
                Err(error) => (
                    CommandStep::Failed { error },
                    CommandActionView::Abort { error },
                ),
            }
        } else if listen {
            (CommandStep::Listen, CommandActionView::BeginListening)
        } else {
            (CommandStep::Finished, CommandActionView::Complete)
        },
        CommandStep::Await { index, got_any } => if heard {
            (CommandStep::Await { index, got_any: true }, CommandActionView::Receive)
        } else {
            (
                CommandStep::Send {
                    index: if index < cmds.len() {
                        (index + 1) as usize
                    } else {
                        index
                    },
                },
                if got_any {
                    CommandActionView::Proceed
                } else {
                    CommandActionView::ReportSilence
                },
            )
        },
        CommandStep::Listen => (CommandStep::Listening, CommandActionView::Listen),
        CommandStep::Listening => if elapsed_secs >= KEEPALIVE_SECS {
            (CommandStep::Listen, CommandActionView::Keepalive)
        } else {
            (CommandStep::Listening, CommandActionView::Listen)
        },
        CommandStep::Finished => (step, CommandActionView::Complete),
        CommandStep::Failed { error } => (step, CommandActionView::Abort { error }),
    }
}

impl DeviceSession {
    /// The next step and action of sending `cmds`; `heard` tells whether the wait that `step`
    /// stands for brought a notification, and `elapsed_secs` how long ago the last keepalive was
    /// or listening began. Begin with `Send { index: 0 }`.
    pub fn run_commands(
        &self,
        step: CommandStep,
        heard: bool,
        elapsed_secs: u64,
        cmds: &[u16],
        group: u8,
        listen: bool,
    ) -> (r: (CommandStep, CommandAction))
        ensures
            (r.0, r.1@) == command_next(
                self@.keys,
                step,
                heard,
                elapsed_secs,
                cmds@,
                group,
                listen,
            ),
            r.1 is Exchange <==> (step matches CommandStep::Send { index } && index < cmds@.len()
                && self@.keys !is Absent),
            r.1 matches CommandAction::Exchange { packet } ==> carries(
                packet@,
                self@.keys,
                group,
                cmds@[step->Send_index as int],
                seq![0xA1u8, 0x01u8, 0x21u8],
            ) && opens_to(packet@, self@.keys, seq![0xA1u8, 0x01u8, 0x21u8]),
    {
        match step {
            CommandStep::Send { index } => {
                if index < cmds.len() {
                    match self.command_packet(group, cmds[index]) {
                        Ok(packet) => (
                            CommandStep::Await { index, got_any: false },
                            CommandAction::Exchange { packet },
                        ),
                        Err(error) => (
                            CommandStep::Failed { error },
                            CommandAction::Abort { error },
                        ),
                    }
                } else if listen {
                    (CommandStep::Listen, CommandAction::BeginListening)
                } else {
                    (CommandStep::Finished, CommandAction::Complete)
                }
            },
            CommandStep::Await { index, got_any } => {
                if heard {
                    (CommandStep::Await { index, got_any: true }, CommandAction::Receive)
                } else {
                    let next: usize = if index < cmds.len() {
                        index + 1
                    } else {
                        index
                    };
                    let action = if got_any {
                        CommandAction::Proceed
                    } else {
                        CommandAction::ReportSilence
                    };
                    (CommandStep::Send { index: next }, action)
                }
            },
            CommandStep::Listen => (CommandStep::Listening, CommandAction::Listen),
            CommandStep::Listening => {
                if keepalive_due(elapsed_secs) {
                    (CommandStep::Listen, CommandAction::Keepalive)
                } else {
                    (CommandStep::Listening, CommandAction::Listen)
                }
            },
            CommandStep::Finished => (step, CommandAction::Complete),
            CommandStep::Failed { error } => (step, CommandAction::Abort { error }),
        }
    }
}

/// The step after a run of waits, each with the keys then in force, with whether it brought a
/// notification and with how long ago the last keepalive was; a step that needs no wait counts as
/// one, whatever is heard.
pub open spec fn command_run(
    step: CommandStep,
    waits: Seq<(KeysView, bool, u64)>,
    cmds: Seq<u16>,
    group: u8,
    listen: bool,
) -> (CommandStep, CommandActionView)
    decreases waits.len(),
{
    if waits.len() == 0 {
        (step, CommandActionView::Proceed)
    } else {
        let before = command_run(step, waits.drop_last(), cmds, group, listen).0;
        command_next(
            waits.last().0,
            before,
            waits.last().1,
            waits.last().2,
            cmds,
            group,
            listen,
        )
    }
}

/// A command is answered by any number of notifications and then silence. The silence is
/// reported if and only if there was no notification, and the next command follows.
pub proof fn law_silence_is_reported_if_nothing_was_heard(
    index: usize,
    waits: Seq<(KeysView, bool, u64)>,
    cmds: Seq<u16>,
    group: u8,
    listen: bool,
)
    requires
        index < cmds.len(),
        waits.len() > 0,
        !waits.last().1,
        forall|i: int| 0 <= i < waits.len() - 1 ==> (#[trigger] waits[i]).1,
    ensures
        ({
            let (next, action) = command_run(
                CommandStep::Await { index, got_any: false },
                waits,
                cmds,
                group,
                listen,
            );
            &&& next == CommandStep::Send { index: (index + 1) as usize }
            &&& action is ReportSilence <==> waits.len() == 1
            &&& action is Proceed <==> waits.len() > 1
        }),
{
    lemma_notifications_are_taken(index, waits.drop_last(), cmds, group, listen);
}

proof fn lemma_notifications_are_taken(
    index: usize,
    waits: Seq<(KeysView, bool, u64)>,
    cmds: Seq<u16>,
    group: u8,
    listen: bool,
)
    requires
        forall|i: int| 0 <= i < waits.len() ==> (#[trigger] waits[i]).1,
    ensures
        command_run(CommandStep::Await { index, got_any: false }, waits, cmds, group, listen).0
            == (CommandStep::Await { index, got_any: waits.len() > 0 }),
    decreases waits.len(),
{
    if waits.len() > 0 {
        assert forall|i: int| 0 <= i < waits.drop_last().len() implies (
        #[trigger] waits.drop_last()[i]).1 by {
            assert(waits.drop_last()[i] == waits[i]);
        }
        lemma_notifications_are_taken(index, waits.drop_last(), cmds, group, listen);
        assert(waits[waits.len() - 1].1);
    }
}

/// The commands that have been sent in a run from the first command on.
pub open spec fn commands_sent(
    waits: Seq<(KeysView, bool, u64)>,
    cmds: Seq<u16>,
    group: u8,
    listen: bool,
) -> Seq<u16>
    decreases waits.len(),
{
    if waits.len() == 0 {
        Seq::empty()
    } else {
        let earlier = commands_sent(waits.drop_last(), cmds, group, listen);
        let before = command_run(
            CommandStep::Send { index: 0 },
            waits.drop_last(),
            cmds,
            group,
            listen,
        ).0;
        let action = command_run(CommandStep::Send { index: 0 }, waits, cmds, group, listen).1;
        match before {
            CommandStep::Send { index } => if action is Exchange {
                earlier.push(cmds[index as int])
            } else {
                earlier
            },
            _ => earlier,
        }
    }
}

/// The actions of a run from the first command on.
pub open spec fn command_actions(
    waits: Seq<(KeysView, bool, u64)>,
    cmds: Seq<u16>,
    group: u8,
    listen: bool,
) -> Seq<CommandActionView>
    decreases waits.len(),
{
    if waits.len() == 0 {
        Seq::empty()
    } else {
        command_actions(waits.drop_last(), cmds, group, listen).push(
            command_run(CommandStep::Send { index: 0 }, waits, cmds, group, listen).1,
        )
    }
}

/// The packets among the actions, in their order.
pub open spec fn packets_in(actions: Seq<CommandActionView>) -> Seq<Seq<u8>>
    decreases actions.len(),
{
    if actions.len() == 0 {
        Seq::empty()
    } else {
        match actions.last() {
            CommandActionView::Exchange { packet } => packets_in(actions.drop_last()).push(packet),
            _ => packets_in(actions.drop_last()),
        }
    }
}

/// The commands are sent in their order, each once: at any time those that have been sent are
/// the first ones of the list, as many as the step tells, and all of them where the run has
/// come to listening or to its end. The packets say the same: the one with a given number is for
/// the group asked for and for the command with that number.
pub proof fn law_commands_are_sent_in_order(
    waits: Seq<(KeysView, bool, u64)>,
    cmds: Seq<u16>,
    group: u8,
    listen: bool,
)
    requires
        cmds.len() <= usize::MAX,
    ensures
        ({
            let sent = commands_sent(waits, cmds, group, listen);
            let step = command_run(CommandStep::Send { index: 0 }, waits, cmds, group, listen).0;
            &&& sent.len() <= cmds.len()
            &&& sent == cmds.take(sent.len() as int)
            &&& packets_in(command_actions(waits, cmds, group, listen)).len() == sent.len()
            &&& forall|i: int|
                0 <= i < sent.len() ==> is_packet_for(
                    #[trigger] packets_in(command_actions(waits, cmds, group, listen))[i],
                    group,
                    (cmds[i] / 256) as u8 | 0x40,
                    (cmds[i] % 256) as u8,
                )
            &&& match step {
                CommandStep::Send { index } => sent.len() == index,
                CommandStep::Await { index, .. } => sent.len() == index + 1,
                CommandStep::Listen => listen && sent == cmds,
                CommandStep::Listening => listen && sent == cmds,
                CommandStep::Finished => !listen && sent == cmds,
                CommandStep::Failed { .. } => true,
            }
        }),
    decreases waits.len(),
{
    let sent = commands_sent(waits, cmds, group, listen);
    if waits.len() == 0 {
        assert(sent =~= cmds.take(0));
    } else {
        law_commands_are_sent_in_order(waits.drop_last(), cmds, group, listen);
        assert(sent =~= cmds.take(sent.len() as int));
        let before = command_actions(waits.drop_last(), cmds, group, listen);
        let actions = command_actions(waits, cmds, group, listen);
        assert(actions.drop_last() =~= before);
        let (keys, heard, elapsed_secs) = waits.last();
        let step = command_run(
            CommandStep::Send { index: 0 },
            waits.drop_last(),
            cmds,
            group,
            listen,
        ).0;
        law_exchange_sends_the_command(keys, step, heard, elapsed_secs, cmds, group, listen);
        assert forall|i: int| 0 <= i < sent.len() implies is_packet_for(
            #[trigger] packets_in(actions)[i],
            group,
            (cmds[i] / 256) as u8 | 0x40,
            (cmds[i] % 256) as u8,
        ) by {
            if i < packets_in(before).len() {
                assert(packets_in(actions)[i] == packets_in(before)[i]);
            }
        }
        if sent.len() == cmds.len() {
            assert(sent =~= cmds);
        }
    }
}

/// Listening goes on for ever, and a keepalive is sent exactly after a wait that ends when the last
/// one, or the beginning of listening, is ten seconds ago.
pub proof fn law_listening_keeps_the_session_alive(
    keys: KeysView,
    step: CommandStep,
    heard: bool,
    elapsed_secs: u64,
    cmds: Seq<u16>,
    group: u8,
    listen: bool,
)
    ensures
        ({
            let (next, action) = command_next(
                keys,
                step,
                heard,
                elapsed_secs,
                cmds,
                group,
                listen,
            );
            &&& action is Keepalive <==> step is Listening && elapsed_secs >= 10
            &&& step is Listen || step is Listening ==> next is Listen || next is Listening
            &&& action is Listen <==> step is Listen || step is Listening && elapsed_secs < 10
            &&& action is Listen ==> next is Listening
        }),
{
}

/// The bytes of a bare command.
proof fn lemma_command_message()
    ensures
        tlv_bytes(command_fields()) == seq![0xA1u8, 0x01u8, 0x21u8],
{
    law_tlv_bytes_of_one_field(0xA1, seq![0x21u8]);
    assert(tlv_bytes(command_fields()) =~= seq![0xA1u8, 0x01u8, 0x21u8]);
}

/// A packet is sent exactly where a command is next and there is a key. It is for the group asked
/// for and for that command, and carries 21 in A1, encrypted with the key and IV in force, of
/// whichever stage they are. Without a key the run fails, and behind the last command it goes on to
/// listening, or it is complete.
pub proof fn law_exchange_sends_the_command(
    keys: KeysView,
    step: CommandStep,
    heard: bool,
    elapsed_secs: u64,
    cmds: Seq<u16>,
    group: u8,
    listen: bool,
)
    ensures
        ({
            let (next, action) = command_next(keys, step, heard, elapsed_secs, cmds, group, listen);
            &&& action is Exchange <==> (step matches CommandStep::Send { index } && index
                < cmds.len() && keys !is Absent)
            &&& action matches CommandActionView::Exchange { packet } ==> carries(
                packet,
                keys,
                group,
                cmds[step->Send_index as int],
                seq![0xA1u8, 0x01u8, 0x21u8],
            ) && next == (CommandStep::Await { index: step->Send_index, got_any: false })
            &&& step matches CommandStep::Send { index } ==> {
                &&& index < cmds.len() && keys is Absent ==> action == (CommandActionView::Abort {
                    error: SessionError::CryptoNotReady,
                }) && next == (CommandStep::Failed { error: SessionError::CryptoNotReady })
                &&& index >= cmds.len() && listen ==> action is BeginListening && next is Listen
                &&& index >= cmds.len() && !listen ==> action is Complete && next is Finished
            }
        }),
{
    lemma_command_message();
    if step matches CommandStep::Send { index } && index < cmds.len() {
        law_encrypted_packet_bytes(keys, group, cmds[step->Send_index as int], command_fields());
    }
}

/// After a command, notifications are waited for as long as they come; with the first silence the
/// next command is up. A run that is over stays so.
pub proof fn law_command_is_awaited(
    keys: KeysView,
    step: CommandStep,
    heard: bool,
    elapsed_secs: u64,
    cmds: Seq<u16>,
    group: u8,
    listen: bool,
)
    ensures
        ({
            let (next, action) = command_next(keys, step, heard, elapsed_secs, cmds, group, listen);
            &&& step matches CommandStep::Await { index, got_any } ==> {
                &&& heard ==> action is Receive && next == (CommandStep::Await {
                    index,
                    got_any: true,
                })
                &&& !heard && index < cmds.len() && cmds.len() <= usize::MAX ==> (next matches
                    CommandStep::Send { index: following } && following == index + 1)
                &&& !heard && got_any ==> action is Proceed
                &&& !heard && !got_any ==> action is ReportSilence
            }
            &&& step is Finished ==> action is Complete && next == step
            &&& step matches CommandStep::Failed { error } ==> action == (CommandActionView::Abort {
                error,
            }) && next == step
        }),
{
}

} // verus!
