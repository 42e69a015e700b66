//! What the reader tolerates, and the one thing it refuses: how comments name
//! peers, that unknown keys and unreadable numbers are passed over, and that
//! a text without an interface section is no configuration.

use vstd::prelude::*;
use crate::model::{
    new_peer, ConfigView, InterfaceView, ParseError, PeerView, WgErrorView, DEFAULT_LISTEN_PORT,
};
use crate::number::parse_u16;
use crate::parser::{
    comment_text, initial_state, interface_or_default, is_comment, is_header, parse_spec, run,
    section_of, set_interface_key, set_peer_key, split_lines, step, ParseState, Section,
};
use crate::roundtrip::{lemma_run_concat, lemma_run_one, lemma_set_interface_keys, lemma_set_peer_keys};
use crate::text::{find, trim};

verus! {

/// Whether the line is a comment.
pub open spec fn comment_line(raw: Seq<char>) -> bool {
    is_comment(trim(raw))
}

/// Whether the line is a section header.
pub open spec fn header_line(raw: Seq<char>) -> bool {
    !is_comment(trim(raw)) && is_header(trim(raw))
}

/// The section that the header line opens.
pub open spec fn header_section(raw: Seq<char>) -> Section {
    section_of(trim(raw))
}

/// Whether the line is read as `key = value`.
pub open spec fn assignment_line(raw: Seq<char>) -> bool {
    let line = trim(raw);
    line.len() > 0 && !is_comment(line) && !is_header(line) && find(line, '=') < line.len()
}

/// The key of a line that is read as `key = value`.
pub open spec fn key_of(raw: Seq<char>) -> Seq<char> {
    let line = trim(raw);
    trim(line.take(find(line, '=') as int))
}

/// Whether `key` is a key that the format knows under `[Interface]`.
pub open spec fn known_interface_key(key: Seq<char>) -> bool {
    key == "PrivateKey"@ || key == "Address"@ || key == "ListenPort"@ || key == "DNS"@ || key
        == "PostUp"@ || key == "PostDown"@
}

/// Whether `key` is a key that the format knows under `[Peer]`.
pub open spec fn known_peer_key(key: Seq<char>) -> bool {
    key == "PublicKey"@ || key == "AllowedIPs"@ || key == "PersistentKeepalive"@ || key
        == "Endpoint"@
}

/// Whether `key` is unknown in the section `section`.
pub open spec fn unknown_key(section: Section, key: Seq<char>) -> bool {
    match section {
        Section::Interface => !known_interface_key(key),
        Section::Peer => !known_peer_key(key),
        _ => true,
    }
}

/// A comment line followed by a `[Peer]` header gives its text to the peer
/// that the header opens, and is then used up.
pub proof fn lemma_comment_names_peer(st: ParseState, comment: Seq<char>, header: Seq<char>)
    requires
        comment_line(comment),
        header_line(header),
        header_section(header) == Section::Peer,
    ensures
        step(step(st, comment), header).open_peer == Some(
            new_peer(Some(comment_text(trim(comment)))),
        ),
        step(step(st, comment), header).pending_comment is None,
{
}

/// Of two comment lines in a row only the second is kept.
pub proof fn lemma_last_comment_wins(st: ParseState, first: Seq<char>, second: Seq<char>)
    requires
        comment_line(first),
        comment_line(second),
    ensures
        step(step(st, first), second) == step(st, second),
{
}

/// A comment line followed by the header of any other section names nothing:
/// the state is as if the comment had not been there.
pub proof fn lemma_comment_dropped(st: ParseState, comment: Seq<char>, header: Seq<char>)
    requires
        comment_line(comment),
        header_line(header),
        header_section(header) != Section::Peer,
    ensures
        step(step(st, comment), header) == step(st, header),
        step(st, header).pending_comment is None,
        step(st, header).open_peer is None,
{
}

/// A key that the section does not know changes no field. Under `[Interface]`
/// the line still counts as a key of the interface, which then exists.
pub proof fn lemma_unknown_key(st: ParseState, raw: Seq<char>)
    requires
        assignment_line(raw),
        unknown_key(st.section, key_of(raw)),
    ensures
        step(st, raw) == if st.section == Section::Interface {
            ParseState { interface: Some(interface_or_default(st)), ..st }
        } else {
            st
        },
{
}

/// A line that leaves the reader's state as it found it can be taken out of
/// the text: what the reader knows after all the lines is the same.
pub proof fn lemma_idle_line(
    st: ParseState,
    before: Seq<Seq<char>>,
    raw: Seq<char>,
    after: Seq<Seq<char>>,
)
    requires
        step(run(st, before), raw) == run(st, before),
    ensures
        run(st, before + seq![raw] + after) == run(st, before + after),
{
    lemma_run_concat(st, before + seq![raw], after);
    lemma_run_concat(st, before, seq![raw]);
    lemma_run_one(run(st, before), raw);
    lemma_run_concat(st, before, after);
}

/// A port that cannot be read is the default port; a keepalive that cannot be
/// read is absent. Neither stops the reading.
pub proof fn lemma_unreadable_numbers(i: InterfaceView, p: PeerView, value: Seq<char>)
    requires
        parse_u16(value) is None,
    ensures
        set_interface_key(i, "ListenPort"@, value) == (InterfaceView {
            listen_port: DEFAULT_LISTEN_PORT,
            ..i
        }),
        set_peer_key(p, "PersistentKeepalive"@, value) == (PeerView {
            persistent_keepalive: None,
            ..p
        }),
{
    lemma_set_interface_keys(i, value);
    lemma_set_peer_keys(p, value);
}

/// Whether the line is an `[Interface]` header.
pub open spec fn opens_interface(raw: Seq<char>) -> bool {
    header_line(raw) && header_section(raw) == Section::Interface
}

/// Lines without an `[Interface]` header leave the reader without interface.
pub proof fn lemma_no_interface(st: ParseState, lines: Seq<Seq<char>>)
    requires
        st.interface is None,
        st.section != Section::Interface,
        forall|k: int| 0 <= k < lines.len() ==> !opens_interface(#[trigger] lines[k]),
    ensures
        run(st, lines).interface is None,
    decreases lines.len(),
{
    if lines.len() > 0 {
        let rest = lines.drop_first();
        assert(!opens_interface(lines[0]));
        assert forall|k: int| 0 <= k < rest.len() implies !opens_interface(#[trigger] rest[k]) by {
            assert(rest[k] == lines[k + 1]);
        }
        lemma_no_interface(step(st, lines[0]), rest);
    }
}

/// A text none of whose lines is an `[Interface]` header is refused for its
/// missing interface, whatever else it holds.
pub proof fn lemma_missing_interface(name: Seq<char>, path: Seq<char>, content: Seq<char>)
    requires
        forall|k: int|
            0 <= k < split_lines(content).len() ==> !opens_interface(
                #[trigger] split_lines(content)[k],
            ),
    ensures
        parse_spec(name, path, content) == Err::<ConfigView, WgErrorView>(
            WgErrorView::Parse(ParseError::MissingInterfaceSection),
        ),
{
    lemma_no_interface(initial_state(), split_lines(content));
}

} // verus!
