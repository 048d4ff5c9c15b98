//! Glue around the board store: the keys under which boards live, the
//! channel that mirrors a board, and the push of a fresh snapshot to that
//! channel's live viewers.

use vstd::prelude::*;
use crate::data::{Board, MessageV, PayloadV};
use crate::protocol::{encode_board, message_json};
use crate::text::push_json_string;
use crate::rooms::{RoomRegistry, map_after_publish};

verus! {

/// The store key of a board: `board/` and the board's id.
pub fn board_store_key(id: &str) -> (r: String)
    ensures
        r@ == ("board/")@ + id@,
{
    let mut out = String::from_str("board/");
    out.append(id);
    out
}

/// The live channel that mirrors a board: `boards/` and the board's id.
pub fn channel_for_board(id: &str) -> (r: String)
    ensures
        r@ == ("boards/")@ + id@,
{
    let mut out = String::from_str("boards/");
    out.append(id);
    out
}

/// The "board" message carrying a full snapshot to a channel's viewers.
pub fn board_update_message(channel: &str, board: &Board) -> (r: String)
    ensures
        r@ == message_json(
            MessageV {
                messagetype: ("board")@,
                channel: channel@,
                payload: PayloadV::BoardUpdate(board@),
            },
        ),
{
    let mut out = String::new();
    out.append("{\"messagetype\":");
    push_json_string(&mut out, "board");
    out.append(",\"channel\":");
    push_json_string(&mut out, channel);
    out.append(",\"payload\":");
    let body = encode_board(board);
    out.append(body.as_str());
    out.append("}");
    proof {
        assert(out@ =~= message_json(
            MessageV {
                messagetype: ("board")@,
                channel: channel@,
                payload: PayloadV::BoardUpdate(board@),
            },
        ));
    }
    out
}

/// After a successful board mutation: push the fresh snapshot onto the
/// board's channel so live viewers refresh. A channel with no live room
/// swallows the update.
pub fn publish_board_update(reg: &mut RoomRegistry, id: &str, board: &Board)
    requires
        old(reg).inv(),
    ensures
        final(reg).inv(),
        final(reg)@ == map_after_publish(
            old(reg)@,
            ("boards/")@ + id@,
            message_json(
                MessageV {
                    messagetype: ("board")@,
                    channel: ("boards/")@ + id@,
                    payload: PayloadV::BoardUpdate(board@),
                },
            ),
        ),
{
    let channel = channel_for_board(id);
    let msg = board_update_message(channel.as_str(), board);
    reg.publish(&channel, msg);
}

} // verus!
