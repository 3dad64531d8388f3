//! The lines that a user types at the client: commands that start with a
//! slash, and everything else, which is said in the current room.

use crate::scan::{find_byte, first_byte, lemma_first_byte_bounds, same_bytes};
use vstd::prelude::*;
use vstd::string::{StringExecFns, StringSliceAdditionalSpecFns};
use vstd::utf8::{
    encode_utf8, encode_utf8_valid_utf8, is_char_boundary,
    is_char_boundary_iff_not_is_continuation_byte, is_char_boundary_start_end_of_seq,
    valid_utf8_split,
};

verus! {

/// What a line asks for.
#[derive(Debug, PartialEq)]
pub enum Command {
    /// Nothing: the line is empty.
    Empty,
    /// `/join` and a room.
    Join(String),
    /// `/join` without a room.
    JoinUsage,
    /// `/rooms`.
    Rooms,
    /// `/quit`.
    Quit,
    /// Another word that starts with a slash.
    Unknown(String),
    /// A chat message.
    Say(String),
}

/// What a [`Command`] says, its texts in UTF-8.
pub enum CommandView {
    Empty,
    Join(Seq<u8>),
    JoinUsage,
    Rooms,
    Quit,
    Unknown(Seq<u8>),
    Say(Seq<u8>),
}

impl View for Command {
    type V = CommandView;

    open spec fn view(&self) -> CommandView {
        match *self {
            Command::Empty => CommandView::Empty,
            Command::Join(room) => CommandView::Join(encode_utf8(room@)),
            Command::JoinUsage => CommandView::JoinUsage,
            Command::Rooms => CommandView::Rooms,
            Command::Quit => CommandView::Quit,
            Command::Unknown(word) => CommandView::Unknown(encode_utf8(word@)),
            Command::Say(text) => CommandView::Say(encode_utf8(text@)),
        }
    }
}

/// What `line`, the UTF-8 form of a line without blanks around it, asks for.
/// A line that does not start with a slash is a chat message. Otherwise its
/// first word, up to the first space, is the command, and what follows that
/// space is the command's argument.
pub open spec fn command_of(line: Seq<u8>) -> CommandView {
    if line.len() == 0 {
        CommandView::Empty
    } else if line[0] != 0x2F {
        CommandView::Say(line)
    } else {
        let cut = first_byte(line, 0x20);
        let word = line.take(cut);
        if word == "/join".spec_bytes() {
            if cut < line.len() {
                CommandView::Join(line.skip(cut + 1))
            } else {
                CommandView::JoinUsage
            }
        } else if word == "/rooms".spec_bytes() {
            CommandView::Rooms
        } else if word == "/quit".spec_bytes() {
            CommandView::Quit
        } else {
            CommandView::Unknown(word)
        }
    }
}

/// What `line` asks for. The caller takes the blanks around the line away
/// first.
pub fn parse_command(line: &str) -> (command: Command)
    ensures
        command@ == command_of(line.spec_bytes()),
{
    let bytes = line.as_bytes();
    let ghost all = line.spec_bytes();
    if bytes.len() == 0 {
        return Command::Empty;
    }
    if bytes[0] != 0x2F {
        return Command::Say(String::from_str(line));
    }
    let cut = find_byte(bytes, 0, 0x20);
    proof {
        assert(all.skip(0) =~= all);
        lemma_first_byte_bounds(all, 0x20);
        encode_utf8_valid_utf8(line@);
        is_char_boundary_start_end_of_seq(all);
        if cut < all.len() {
            is_char_boundary_iff_not_is_continuation_byte(all, cut as int);
        }
        valid_utf8_split(all, cut as int);
    }
    let (word, tail) = line.split_at(cut);
    let word_bytes = word.as_bytes();
    assert(word_bytes@ == all.take(cut as int));
    if same_bytes(word_bytes, "/join".as_bytes()) {
        if cut < bytes.len() {
            proof {
                let rest = tail.spec_bytes();
                assert(rest[0] == 0x20);
                reveal_with_fuel(is_char_boundary, 2);
                assert(is_char_boundary(rest, 1));
            }
            let (_, room) = tail.split_at(1);
            assert(room.spec_bytes() =~= all.skip(cut + 1));
            Command::Join(String::from_str(room))
        } else {
            Command::JoinUsage
        }
    } else if same_bytes(word_bytes, "/rooms".as_bytes()) {
        Command::Rooms
    } else if same_bytes(word_bytes, "/quit".as_bytes()) {
        Command::Quit
    } else {
        Command::Unknown(String::from_str(word))
    }
}

} // verus!
