//! The request/response protocol between a client and the daemon. Each
//! connection carries exactly one encoded command line and one encoded
//! response line; encoding and decoding are exact inverses of one another.

use vstd::prelude::*;

use crate::codec::{
    decode_msg, decode_msg_sp, encode_msg, encode_msg_sp, lemma_msg_no_newline,
    lemma_msg_round_trip,
};

verus! {

/// A request a client can send to the daemon.
#[derive(Debug, PartialEq, Eq)]
pub enum DaemonCommand {
    GetSecrets { shell: String },
    AddSecret { key: String, value: String },
    RemoveSecret { key: String },
    ListSecrets,
    Shutdown,
}

/// The mathematical shape of a command: its fields as character sequences.
pub enum CommandView {
    GetSecrets { shell: Seq<char> },
    AddSecret { key: Seq<char>, value: Seq<char> },
    RemoveSecret { key: Seq<char> },
    ListSecrets,
    Shutdown,
}

impl View for DaemonCommand {
    type V = CommandView;

    open spec fn view(&self) -> CommandView {
        match self {
            DaemonCommand::GetSecrets { shell } => CommandView::GetSecrets { shell: shell@ },
            DaemonCommand::AddSecret { key, value } => CommandView::AddSecret {
                key: key@,
                value: value@,
            },
            DaemonCommand::RemoveSecret { key } => CommandView::RemoveSecret { key: key@ },
            DaemonCommand::ListSecrets => CommandView::ListSecrets,
            DaemonCommand::Shutdown => CommandView::Shutdown,
        }
    }
}

/// A reply the daemon sends back for one command.
#[derive(Debug, PartialEq, Eq)]
pub enum DaemonResponse {
    Secrets(Vec<(String, String)>),
    KeyList(Vec<String>),
    Success(String),
    Error(String),
}

/// The mathematical shape of a response.
pub enum ResponseView {
    Secrets(Seq<(Seq<char>, Seq<char>)>),
    KeyList(Seq<Seq<char>>),
    Success(Seq<char>),
    Error(Seq<char>),
}

impl View for DaemonResponse {
    type V = ResponseView;

    open spec fn view(&self) -> ResponseView {
        match self {
            DaemonResponse::Secrets(v) => ResponseView::Secrets(v.deep_view()),
            DaemonResponse::KeyList(v) => ResponseView::KeyList(v.deep_view()),
            DaemonResponse::Success(m) => ResponseView::Success(m@),
            DaemonResponse::Error(m) => ResponseView::Error(m@),
        }
    }
}

// ---------------------------------------------------------------------------
// Commands on the wire
// ---------------------------------------------------------------------------

/// The message fields of a command; the tag is given by `command_tag`.
pub open spec fn command_fields(c: CommandView) -> Seq<Seq<char>> {
    match c {
        CommandView::GetSecrets { shell } => seq![shell],
        CommandView::AddSecret { key, value } => seq![key, value],
        CommandView::RemoveSecret { key } => seq![key],
        CommandView::ListSecrets => Seq::empty(),
        CommandView::Shutdown => Seq::empty(),
    }
}

pub open spec fn command_tag(c: CommandView) -> char {
    match c {
        CommandView::GetSecrets { .. } => 'G',
        CommandView::AddSecret { .. } => 'A',
        CommandView::RemoveSecret { .. } => 'R',
        CommandView::ListSecrets => 'L',
        CommandView::Shutdown => 'D',
    }
}

/// The encoded line of a command.
pub open spec fn encode_command_sp(c: CommandView) -> Seq<char> {
    encode_msg_sp(command_tag(c), command_fields(c))
}

/// The command a line stands for, if any.
pub open spec fn decode_command_sp(s: Seq<char>) -> Option<CommandView> {
    match decode_msg_sp(s) {
        None => None,
        Some((tag, fields)) => if tag == 'G' && fields.len() == 1 {
            Some(CommandView::GetSecrets { shell: fields[0] })
        } else if tag == 'A' && fields.len() == 2 {
            Some(CommandView::AddSecret { key: fields[0], value: fields[1] })
        } else if tag == 'R' && fields.len() == 1 {
            Some(CommandView::RemoveSecret { key: fields[0] })
        } else if tag == 'L' && fields.len() == 0 {
            Some(CommandView::ListSecrets)
        } else if tag == 'D' && fields.len() == 0 {
            Some(CommandView::Shutdown)
        } else {
            None
        },
    }
}

/// Every command decodes back to itself after encoding.
pub proof fn lemma_command_round_trip(c: CommandView)
    ensures
        decode_command_sp(encode_command_sp(c)) == Some(c),
{
    lemma_msg_round_trip(command_tag(c), command_fields(c));
}

/// An encoded command holds no newline.
pub proof fn lemma_command_no_newline(c: CommandView)
    ensures
        forall|k: int|
            0 <= k < encode_command_sp(c).len() ==> #[trigger] encode_command_sp(c)[k] != '\n',
{
    lemma_msg_no_newline(command_tag(c), command_fields(c));
}

/// Encodes a command as one line of the protocol.
pub fn encode_command(c: &DaemonCommand) -> (r: String)
    ensures
        r@ == encode_command_sp(c@),
{
    match c {
        DaemonCommand::GetSecrets { shell } => {
            let mut fields: Vec<String> = Vec::new();
            fields.push(shell.clone());
            assert(fields.deep_view() =~= command_fields(c@));
            encode_msg('G', &fields)
        },
        DaemonCommand::AddSecret { key, value } => {
            let mut fields: Vec<String> = Vec::new();
            fields.push(key.clone());
            fields.push(value.clone());
            assert(fields.deep_view() =~= command_fields(c@));
            encode_msg('A', &fields)
        },
        DaemonCommand::RemoveSecret { key } => {
            let mut fields: Vec<String> = Vec::new();
            fields.push(key.clone());
            assert(fields.deep_view() =~= command_fields(c@));
            encode_msg('R', &fields)
        },
        DaemonCommand::ListSecrets => {
            let fields: Vec<String> = Vec::new();
            assert(fields.deep_view() =~= command_fields(c@));
            encode_msg('L', &fields)
        },
        DaemonCommand::Shutdown => {
            let fields: Vec<String> = Vec::new();
            assert(fields.deep_view() =~= command_fields(c@));
            encode_msg('D', &fields)
        },
    }
}

/// Decodes one line into the command it stands for; `None` on any line that
/// no command encodes to.
pub fn decode_command(line: &str) -> (r: Option<DaemonCommand>)
    ensures
        match r {
            Some(c) => decode_command_sp(line@) == Some(c@),
            None => decode_command_sp(line@) is None,
        },
{
    match decode_msg(line) {
        None => None,
        Some((tag, mut fields)) => {
            if tag == 'G' && fields.len() == 1 {
                let shell = fields.remove(0);
                Some(DaemonCommand::GetSecrets { shell })
            } else if tag == 'A' && fields.len() == 2 {
                let key = fields.remove(0);
                let value = fields.remove(0);
                Some(DaemonCommand::AddSecret { key, value })
            } else if tag == 'R' && fields.len() == 1 {
                let key = fields.remove(0);
                Some(DaemonCommand::RemoveSecret { key })
            } else if tag == 'L' && fields.len() == 0 {
                Some(DaemonCommand::ListSecrets)
            } else if tag == 'D' && fields.len() == 0 {
                Some(DaemonCommand::Shutdown)
            } else {
                None
            }
        },
    }
}

// ---------------------------------------------------------------------------
// Responses on the wire
// ---------------------------------------------------------------------------

/// Key/value pairs flattened into one field list: key, value, key, value, ...
pub open spec fn pairs_fields(ps: Seq<(Seq<char>, Seq<char>)>) -> Seq<Seq<char>>
    decreases ps.len(),
{
    if ps.len() == 0 {
        Seq::empty()
    } else {
        pairs_fields(ps.drop_last()) + seq![ps.last().0, ps.last().1]
    }
}

/// The inverse of `pairs_fields`: fails on an odd field count.
pub open spec fn fields_pairs(fs: Seq<Seq<char>>) -> Option<Seq<(Seq<char>, Seq<char>)>>
    decreases fs.len(),
{
    if fs.len() == 0 {
        Some(Seq::empty())
    } else if fs.len() == 1 {
        None
    } else {
        match fields_pairs(fs.drop_last().drop_last()) {
            Some(init) => Some(init.push((fs[fs.len() - 2], fs[fs.len() - 1]))),
            None => None,
        }
    }
}

pub proof fn lemma_pairs_fields_len(ps: Seq<(Seq<char>, Seq<char>)>)
    ensures
        pairs_fields(ps).len() == 2 * ps.len(),
    decreases ps.len(),
{
    if ps.len() > 0 {
        lemma_pairs_fields_len(ps.drop_last());
    }
}

pub proof fn lemma_fields_pairs_inverse(ps: Seq<(Seq<char>, Seq<char>)>)
    ensures
        fields_pairs(pairs_fields(ps)) == Some(ps),
    decreases ps.len(),
{
    if ps.len() == 0 {
        assert(pairs_fields(ps).len() == 0);
    } else {
        lemma_fields_pairs_inverse(ps.drop_last());
        lemma_pairs_fields_len(ps);
        let fs = pairs_fields(ps);
        assert(fs.drop_last().drop_last() =~= pairs_fields(ps.drop_last()));
        assert(fs[fs.len() - 2] == ps.last().0);
        assert(fs[fs.len() - 1] == ps.last().1);
        assert(ps.drop_last().push((ps.last().0, ps.last().1)) =~= ps);
    }
}

/// The message fields of a response; the tag is given by `response_tag`.
pub open spec fn response_fields(r: ResponseView) -> Seq<Seq<char>> {
    match r {
        ResponseView::Secrets(ps) => pairs_fields(ps),
        ResponseView::KeyList(ks) => ks,
        ResponseView::Success(m) => seq![m],
        ResponseView::Error(m) => seq![m],
    }
}

pub open spec fn response_tag(r: ResponseView) -> char {
    match r {
        ResponseView::Secrets(..) => 'S',
        ResponseView::KeyList(..) => 'K',
        ResponseView::Success(..) => 'O',
        ResponseView::Error(..) => 'E',
    }
}

/// The encoded line of a response.
pub open spec fn encode_response_sp(r: ResponseView) -> Seq<char> {
    encode_msg_sp(response_tag(r), response_fields(r))
}

/// The response a line stands for, if any.
pub open spec fn decode_response_sp(s: Seq<char>) -> Option<ResponseView> {
    match decode_msg_sp(s) {
        None => None,
        Some((tag, fields)) => if tag == 'S' {
            match fields_pairs(fields) {
                Some(ps) => Some(ResponseView::Secrets(ps)),
                None => None,
            }
        } else if tag == 'K' {
            Some(ResponseView::KeyList(fields))
        } else if tag == 'O' && fields.len() == 1 {
            Some(ResponseView::Success(fields[0]))
        } else if tag == 'E' && fields.len() == 1 {
            Some(ResponseView::Error(fields[0]))
        } else {
            None
        },
    }
}

/// Every response decodes back to itself after encoding.
pub proof fn lemma_response_round_trip(r: ResponseView)
    ensures
        decode_response_sp(encode_response_sp(r)) == Some(r),
{
    lemma_msg_round_trip(response_tag(r), response_fields(r));
    match r {
        ResponseView::Secrets(ps) => {
            lemma_fields_pairs_inverse(ps);
        },
        _ => {},
    }
}

/// An encoded response holds no newline.
pub proof fn lemma_response_no_newline(r: ResponseView)
    ensures
        forall|k: int|
            0 <= k < encode_response_sp(r).len() ==> #[trigger] encode_response_sp(r)[k] != '\n',
{
    lemma_msg_no_newline(response_tag(r), response_fields(r));
}

/// Encodes a response as one line of the protocol.
pub fn encode_response(r: &DaemonResponse) -> (out: String)
    ensures
        out@ == encode_response_sp(r@),
{
    match r {
        DaemonResponse::Secrets(pairs) => {
            let mut fields: Vec<String> = Vec::new();
            let n: usize = pairs.len();
            assert(fields.deep_view() =~= pairs_fields(pairs.deep_view().take(0)));
            let mut i: usize = 0;
            while i < n
                invariant
                    n == pairs.len(),
                    0 <= i <= n,
                    fields.deep_view() == pairs_fields(pairs.deep_view().take(i as int)),
                decreases n - i,
            {
                let ghost dv = pairs.deep_view();
                fields.push(pairs[i].0.clone());
                fields.push(pairs[i].1.clone());
                proof {
                    assert(dv.take(i + 1 as int).drop_last() =~= dv.take(i as int));
                    assert(dv.take(i + 1 as int).last() == dv[i as int]);
                    assert(fields.deep_view() =~= pairs_fields(dv.take(i as int)) + seq![
                        dv[i as int].0,
                        dv[i as int].1,
                    ]);
                }
                i = i + 1;
            }
            proof {
                assert(pairs.deep_view().take(n as int) =~= pairs.deep_view());
            }
            encode_msg('S', &fields)
        },
        DaemonResponse::KeyList(keys) => {
            let mut fields: Vec<String> = Vec::new();
            let n: usize = keys.len();
            let mut i: usize = 0;
            while i < n
                invariant
                    n == keys.len(),
                    0 <= i <= n,
                    fields.deep_view() == keys.deep_view().take(i as int),
                decreases n - i,
            {
                let ghost before = fields.deep_view();
                fields.push(keys[i].clone());
                proof {
                    let dv = keys.deep_view();
                    assert(fields.deep_view() =~= before.push(dv[i as int]));
                    assert(before.push(dv[i as int]) =~= dv.take(i + 1 as int));
                }
                i = i + 1;
            }
            proof {
                assert(keys.deep_view().take(n as int) =~= keys.deep_view());
            }
            encode_msg('K', &fields)
        },
        DaemonResponse::Success(m) => {
            let mut fields: Vec<String> = Vec::new();
            fields.push(m.clone());
            assert(fields.deep_view() =~= response_fields(r@));
            encode_msg('O', &fields)
        },
        DaemonResponse::Error(m) => {
            let mut fields: Vec<String> = Vec::new();
            fields.push(m.clone());
            assert(fields.deep_view() =~= response_fields(r@));
            encode_msg('E', &fields)
        },
    }
}

/// Decodes one line into the response it stands for; `None` on any line
/// that no response encodes to.
pub fn decode_response(line: &str) -> (r: Option<DaemonResponse>)
    ensures
        match r {
            Some(resp) => decode_response_sp(line@) == Some(resp@),
            None => decode_response_sp(line@) is None,
        },
{
    match decode_msg(line) {
        None => None,
        Some((tag, mut fields)) => {
            if tag == 'S' {
                if fields.len() % 2 != 0 {
                    proof {
                        lemma_fields_pairs_odd(fields.deep_view());
                    }
                    return None;
                }
                let ghost fv = fields.deep_view();
                let mut pairs: Vec<(String, String)> = Vec::new();
                let n: usize = fields.len() / 2;
                assert(fv.take(0) =~= Seq::<Seq<char>>::empty());
                let mut i: usize = 0;
                while i < n
                    invariant
                        fields.len() == 2 * n,
                        fields.deep_view() == fv,
                        0 <= i <= n,
                        fields_pairs(fv.take(2 * i as int)) == Some(pairs.deep_view()),
                    decreases n - i,
                {
                    let k = fields[2 * i].clone();
                    let v = fields[2 * i + 1].clone();
                    proof {
                        let t = fv.take(2 * (i + 1) as int);
                        assert(t.drop_last().drop_last() =~= fv.take(2 * i as int));
                        assert(t[t.len() - 2] == fv[2 * i as int]);
                        assert(t[t.len() - 1] == fv[2 * i + 1 as int]);
                    }
                    pairs.push((k, v));
                    assert(pairs.deep_view() =~= fields_pairs(fv.take(2 * (i + 1) as int))->0);
                    i = i + 1;
                }
                proof {
                    assert(fv.take(2 * n as int) =~= fv);
                }
                Some(DaemonResponse::Secrets(pairs))
            } else if tag == 'K' {
                Some(DaemonResponse::KeyList(fields))
            } else if tag == 'O' && fields.len() == 1 {
                let m = fields.remove(0);
                Some(DaemonResponse::Success(m))
            } else if tag == 'E' && fields.len() == 1 {
                let m = fields.remove(0);
                Some(DaemonResponse::Error(m))
            } else {
                None
            }
        },
    }
}

/// A field list of odd length never stands for a pair list.
proof fn lemma_fields_pairs_odd(fs: Seq<Seq<char>>)
    requires
        fs.len() % 2 == 1,
    ensures
        fields_pairs(fs) is None,
    decreases fs.len(),
{
    if fs.len() > 1 {
        lemma_fields_pairs_odd(fs.drop_last().drop_last());
    }
}

} // verus!
