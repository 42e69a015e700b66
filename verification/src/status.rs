//! What the tunnel's command-line tools report, read from their output.
//!
//! Running a command is the caller's part. These functions take what a command
//! left behind (whether it succeeded, what it wrote) and say what it means.

use vstd::prelude::*;
use crate::model::{PeerStatus, PeerStatusView, WgError, WgErrorView};
use crate::text::{
    line_ranges, range_is, range_texts, ranges_within, split, split_ranges, strip_range,
    text_lines, to_chars, to_string, trim, CharClass,
};

verus! {

/// `field`, or nothing where it is empty.
pub open spec fn unless_empty(field: Seq<char>) -> Option<Seq<char>> {
    if field.len() == 0 {
        None
    } else {
        Some(field)
    }
}

/// `field`, or nothing where it is `0`.
pub open spec fn unless_zero(field: Seq<char>) -> Option<Seq<char>> {
    if field == "0"@ {
        None
    } else {
        Some(field)
    }
}

/// What one line of a status dump says of a peer. The fields are set apart by
/// tabs: the public key comes first, the endpoint third, the time of the last
/// handshake fifth, then the bytes received and the bytes sent. A line of fewer
/// than six fields says nothing.
pub open spec fn status_of(line: Seq<char>) -> Option<PeerStatusView> {
    let fields = split(line, '\t');
    if fields.len() >= 6 {
        Some(
            PeerStatusView {
                public_key: fields[0],
                endpoint: unless_empty(fields[2]),
                latest_handshake: unless_zero(fields[4]),
                transfer_rx: Some(fields[5]),
                transfer_tx: if fields.len() > 6 {
                    Some(fields[6])
                } else {
                    None
                },
            },
        )
    } else {
        None
    }
}

/// What the lines `lines` say of peers, in order.
pub open spec fn statuses_of(lines: Seq<Seq<char>>) -> Seq<PeerStatusView>
    decreases lines.len(),
{
    if lines.len() == 0 {
        Seq::empty()
    } else {
        let before = statuses_of(lines.drop_last());
        match status_of(lines.last()) {
            Some(status) => before.push(status),
            None => before,
        }
    }
}

/// What a status dump says of peers: its first line describes the interface
/// and is passed over.
pub open spec fn peer_statuses(dump: Seq<char>) -> Seq<PeerStatusView> {
    let lines = text_lines(dump);
    if lines.len() == 0 {
        Seq::empty()
    } else {
        statuses_of(lines.drop_first())
    }
}

/// The views of a sequence of statuses.
pub open spec fn status_views(statuses: Seq<PeerStatus>) -> Seq<PeerStatusView> {
    Seq::new(statuses.len(), |k: int| statuses[k]@)
}

/// What a command that succeeded with the output `stdout`, or failed with the
/// report `stderr`, amounts to.
pub open spec fn command_result(success: bool, stdout: Seq<char>, stderr: Seq<char>) -> Result<
    Seq<char>,
    WgErrorView,
> {
    if success {
        Ok(stdout)
    } else {
        Err(WgErrorView::CommandFailed(stderr))
    }
}

/// What a command that writes a key amounts to: the key is its output without
/// surrounding white space, and its failure is reported as `failure`.
pub open spec fn key_result(success: bool, stdout: Seq<char>, failure: Seq<char>) -> Result<
    Seq<char>,
    WgErrorView,
> {
    if success {
        Ok(trim(stdout))
    } else {
        Err(WgErrorView::CommandFailed(failure))
    }
}

/// The view of what a command that gives a text amounts to.
pub open spec fn text_outcome(r: Result<String, WgError>) -> Result<Seq<char>, WgErrorView> {
    match r {
        Ok(text) => Ok(text@),
        Err(e) => Err(e@),
    }
}

/// Reads one line of a status dump, `chars[lo..hi]`.
fn read_status(chars: &Vec<char>, lo: usize, hi: usize) -> (r: Option<PeerStatus>)
    requires
        lo <= hi <= chars.len(),
    ensures
        match r {
            Some(status) => status_of(chars@.subrange(lo as int, hi as int)) == Some(status@),
            None => status_of(chars@.subrange(lo as int, hi as int)) is None,
        },
{
    let fields = split_ranges(chars, lo, hi, '\t');
    let ghost texts = split(chars@.subrange(lo as int, hi as int), '\t');
    assert(texts.len() == fields.len());
    if fields.len() < 6 {
        return None;
    }
    let (a0, b0) = fields[0];
    let (a2, b2) = fields[2];
    let (a4, b4) = fields[4];
    let (a5, b5) = fields[5];
    assert(texts[0] == chars@.subrange(a0 as int, b0 as int));
    assert(texts[2] == chars@.subrange(a2 as int, b2 as int));
    assert(texts[4] == chars@.subrange(a4 as int, b4 as int));
    assert(texts[5] == chars@.subrange(a5 as int, b5 as int));
    let endpoint = if a2 == b2 {
        None
    } else {
        Some(to_string(chars, a2, b2))
    };
    let latest_handshake = if range_is(chars, a4, b4, "0") {
        None
    } else {
        Some(to_string(chars, a4, b4))
    };
    let transfer_tx = if fields.len() > 6 {
        let (a6, b6) = fields[6];
        assert(texts[6] == chars@.subrange(a6 as int, b6 as int));
        Some(to_string(chars, a6, b6))
    } else {
        None
    };
    Some(
        PeerStatus {
            public_key: to_string(chars, a0, b0),
            endpoint,
            latest_handshake,
            transfer_rx: Some(to_string(chars, a5, b5)),
            transfer_tx,
        },
    )
}

/// What bringing a tunnel up or down amounts to: the command's output where
/// it succeeded, its report as the failure where it did not.
pub fn command_output(success: bool, stdout: String, stderr: String) -> (r: Result<
    String,
    WgError,
>)
    ensures
        text_outcome(r) == command_result(success, stdout@, stderr@),
{
    if !success {
        return Err(WgError::CommandFailed(stderr));
    }
    Ok(stdout)
}

/// Reads the status of every peer from the outcome of the status dump
/// command: whether it succeeded, what it wrote, and what it reported.
pub fn get_peer_status(success: bool, stdout: &str, stderr: &str) -> (r: Result<
    Vec<PeerStatus>,
    WgError,
>)
    ensures
        match r {
            Ok(statuses) => success && status_views(statuses@) == peer_statuses(stdout@),
            Err(e) => !success && e@ == WgErrorView::CommandFailed(stderr@),
        },
{
    if !success {
        return Err(WgError::CommandFailed(stderr.to_owned()));
    }
    let chars = to_chars(stdout);
    let lines = line_ranges(&chars);
    let ghost texts = text_lines(chars@);
    assert(texts.len() == lines.len());
    let mut statuses: Vec<PeerStatus> = Vec::new();
    if lines.len() == 0 {
        assert(status_views(statuses@) =~= peer_statuses(stdout@));
        return Ok(statuses);
    }
    let mut k: usize = 1;
    assert(texts.subrange(1, 1) =~= Seq::<Seq<char>>::empty());
    assert(status_views(statuses@) =~= statuses_of(texts.subrange(1, 1)));
    while k < lines.len()
        invariant
            1 <= k <= lines.len(),
            chars@ == stdout@,
            texts == text_lines(chars@),
            texts == range_texts(chars@, lines@),
            ranges_within(lines@, 0, chars.len() as int),
            status_views(statuses@) == statuses_of(texts.subrange(1, k as int)),
        decreases lines.len() - k,
    {
        let (a, b) = lines[k];
        assert(texts[k as int] == chars@.subrange(a as int, b as int));
        let ghost before = statuses@;
        let ghost read = texts.subrange(1, k as int);
        let ghost next = texts.subrange(1, k + 1);
        assert(next.drop_last() =~= read);
        assert(next.last() == texts[k as int]);
        match read_status(&chars, a, b) {
            Some(status) => {
                statuses.push(status);
                assert(status_views(statuses@) =~= status_views(before).push(status@));
            },
            None => {},
        }
        k += 1;
    }
    assert(texts.subrange(1, k as int) =~= texts.drop_first());
    Ok(statuses)
}

/// Reads a key from the outcome of a command that writes one: the key is the
/// output without surrounding white space, and a failure is reported as
/// `failure`.
fn read_key(success: bool, stdout: &str, failure: &str) -> (r: Result<String, WgError>)
    ensures
        text_outcome(r) == key_result(success, stdout@, failure@),
{
    if !success {
        return Err(WgError::CommandFailed(failure.to_owned()));
    }
    let chars = to_chars(stdout);
    let (a, b) = strip_range(&chars, 0, chars.len(), CharClass::Space);
    assert(chars@.subrange(0, chars.len() as int) =~= chars@);
    Ok(to_string(&chars, a, b))
}

/// The private key that the key generator wrote, from the outcome of its
/// command.
pub fn generated_private_key(success: bool, stdout: &str) -> (r: Result<String, WgError>)
    ensures
        text_outcome(r) == key_result(success, stdout@, "Failed to generate private key"@),
{
    read_key(success, stdout, "Failed to generate private key")
}

/// The pair of a fresh private key and its public key, from the private key
/// and the outcome of the command that derived the public key from it.
pub fn generate_keypair(private_key: String, success: bool, stdout: &str) -> (r: Result<
    (String, String),
    WgError,
>)
    ensures
        match r {
            Ok(pair) => pair.0 == private_key && key_result(
                success,
                stdout@,
                "Failed to generate public key"@,
            ) == Ok::<Seq<char>, WgErrorView>(pair.1@),
            Err(e) => key_result(success, stdout@, "Failed to generate public key"@) == Err::<
                Seq<char>,
                WgErrorView,
            >(e@),
        },
{
    match read_key(success, stdout, "Failed to generate public key") {
        Ok(public_key) => Ok((private_key, public_key)),
        Err(e) => Err(e),
    }
}

/// The public key that belongs to a private key, from the outcome of the
/// command that derived it.
pub fn get_public_key(success: bool, stdout: &str) -> (r: Result<String, WgError>)
    ensures
        text_outcome(r) == key_result(success, stdout@, "Failed to derive public key"@),
{
    read_key(success, stdout, "Failed to derive public key")
}

} // verus!
