//! Server commands. A command runs with the attribution of its origin —
//! the server console or a player entity — and publishes through the
//! broadcast queue, never through shared mutable state.

use vstd::prelude::*;

use crate::broadcast::{append_bytes, BroadcastMessage, BroadcastQueue};
use crate::net_types::PlayerIdentity;
use crate::WireError;

verus! {

/// Who an action came from: the server itself, or a player entity named
/// by its index in the player table. The sender never owns simulation
/// state, it only refers to it.
#[derive(Clone, Copy, PartialEq, Eq, Structural, Debug)]
pub enum Sender {
    Server,
    Player(usize),
}

/// The console's display name, as chat bytes: `Server`.
pub open spec fn server_name() -> Seq<u8> {
    seq![83u8, 101u8, 114u8, 118u8, 101u8, 114u8]
}

/// One chat line: `<name> message`.
pub open spec fn say_line(name: Seq<u8>, message: Seq<u8>) -> Seq<u8> {
    seq![60u8] + name + seq![62u8, 32u8] + message
}

/// Build the chat line for a name.
fn format_say_line(name: &Vec<u8>, message: &Vec<u8>) -> (r: Vec<u8>)
    ensures
        r@ == say_line(name@, message@),
{
    let mut out: Vec<u8> = Vec::new();
    out.push(60);  // '<'
    append_bytes(&mut out, name);
    out.push(62);  // '>'
    out.push(32);  // ' '
    append_bytes(&mut out, message);
    proof {
        assert(out@ =~= say_line(name@, message@));
    }
    out
}

/// The `say` command: broadcast `<name> message` to every connection,
/// where the name is `Server` for the console and the player's username
/// for a player sender.
///
/// A sender that names a missing entity is a failure inside the handler:
/// it is reported and nothing is broadcast, and the tick goes on.
pub fn say_command(
    sender: Sender,
    message: &Vec<u8>,
    players: &Vec<PlayerIdentity>,
    queue: &mut BroadcastQueue,
) -> (r: Result<(), WireError>)
    ensures
        match sender {
            Sender::Server => {
                &&& r is Ok
                &&& final(queue).queue@.len() == old(queue).queue@.len() + 1
                &&& ({
                    let m = final(queue).queue@.last();
                    &&& m.payload@ == say_line(server_name(), message@)
                    &&& !m.overlay
                    &&& m.target_all
                })
                &&& final(queue).queue@.subrange(0, old(queue).queue@.len() as int) == old(
                    queue,
                ).queue@
            },
            Sender::Player(e) => {
                if e < players@.len() {
                    &&& r is Ok
                    &&& final(queue).queue@.len() == old(queue).queue@.len() + 1
                    &&& ({
                        let m = final(queue).queue@.last();
                        &&& m.payload@ == say_line(players@[e as int].username@, message@)
                        &&& !m.overlay
                        &&& m.target_all
                    })
                    &&& final(queue).queue@.subrange(0, old(queue).queue@.len() as int) == old(
                        queue,
                    ).queue@
                } else {
                    &&& r == Err::<(), WireError>(WireError::HandlerError)
                    &&& final(queue).queue@ == old(queue).queue@
                }
            },
        },
{
    let line: Vec<u8> = match sender {
        Sender::Server => {
            let mut name: Vec<u8> = Vec::new();
            name.push(83);  // 'S'
            name.push(101);  // 'e'
            name.push(114);  // 'r'
            name.push(118);  // 'v'
            name.push(101);  // 'e'
            name.push(114);  // 'r'
            proof {
                assert(name@ =~= server_name());
            }
            format_say_line(&name, message)
        },
        Sender::Player(e) => {
            if e >= players.len() {
                return Err(WireError::HandlerError);
            }
            format_say_line(&players[e].username, message)
        },
    };
    queue.enqueue(
        BroadcastMessage { payload: line, overlay: false, target_all: true, targets: Vec::new() },
    );
    proof {
        assert(final(queue).queue@.subrange(0, old(queue).queue@.len() as int) =~= old(
            queue,
        ).queue@);
    }
    Ok(())
}

} // verus!
