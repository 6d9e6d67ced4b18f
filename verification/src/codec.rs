//! The wire framing for the daemon protocol: a message is one line made of
//! a one-character tag and a list of fields, separated by single spaces.
//! Field text is arbitrary, so backslash, newline and space are escaped;
//! an encoded line therefore never holds a newline, and decoding is the
//! exact inverse of encoding.

use vstd::prelude::*;
use vstd::string::StrSliceExecFns;

verus! {

// ---------------------------------------------------------------------------
// Escaping of one field
// ---------------------------------------------------------------------------

/// How a single character is written inside a field: backslash, newline and
/// space get a two-character escape, everything else stands for itself.
pub open spec fn esc_char(c: char) -> Seq<char> {
    if c == '\\' {
        seq!['\\', '\\']
    } else if c == '\n' {
        seq!['\\', 'n']
    } else if c == ' ' {
        seq!['\\', 's']
    } else {
        seq![c]
    }
}

/// The escaped form of a field.
pub open spec fn esc(s: Seq<char>) -> Seq<char>
    decreases s.len(),
{
    if s.len() == 0 {
        Seq::empty()
    } else {
        esc_char(s[0]) + esc(s.drop_first())
    }
}

/// The inverse of `esc`: fails on a dangling backslash or an unknown escape.
pub open spec fn unesc(s: Seq<char>) -> Option<Seq<char>>
    decreases s.len(),
{
    if s.len() == 0 {
        Some(Seq::empty())
    } else if s[0] == '\\' {
        if s.len() == 1 {
            None
        } else {
            let c = if s[1] == '\\' {
                Some('\\')
            } else if s[1] == 'n' {
                Some('\n')
            } else if s[1] == 's' {
                Some(' ')
            } else {
                None
            };
            match (c, unesc(s.subrange(2, s.len() as int))) {
                (Some(c), Some(rest)) => Some(seq![c] + rest),
                _ => None,
            }
        }
    } else {
        match unesc(s.drop_first()) {
            Some(rest) => Some(seq![s[0]] + rest),
            None => None,
        }
    }
}

/// A sequence of characters free of the two separators of the framing.
pub open spec fn sep_free(s: Seq<char>) -> bool {
    forall|i: int| 0 <= i < s.len() ==> s[i] != ' ' && s[i] != '\n'
}

pub proof fn lemma_esc_append(a: Seq<char>, b: Seq<char>)
    ensures
        esc(a + b) == esc(a) + esc(b),
    decreases a.len(),
{
    if a.len() == 0 {
        assert(a + b =~= b);
        assert(esc(a) + esc(b) =~= esc(b));
    } else {
        assert((a + b).drop_first() =~= a.drop_first() + b);
        lemma_esc_append(a.drop_first(), b);
        assert(esc(a + b) =~= esc(a) + esc(b));
    }
}

pub proof fn lemma_esc_sep_free(s: Seq<char>)
    ensures
        sep_free(esc(s)),
    decreases s.len(),
{
    if s.len() > 0 {
        lemma_esc_sep_free(s.drop_first());
        assert forall|i: int| 0 <= i < esc(s).len() implies esc(s)[i] != ' ' && esc(s)[i] != '\n' by {
            if i >= esc_char(s[0]).len() {
                assert(esc(s)[i] == esc(s.drop_first())[i - esc_char(s[0]).len()]);
            }
        }
    }
}

pub proof fn lemma_unesc_esc(s: Seq<char>)
    ensures
        unesc(esc(s)) == Some(s),
    decreases s.len(),
{
    if s.len() == 0 {
        assert(unesc(esc(s)) == Some(s));
    } else {
        lemma_unesc_esc(s.drop_first());
        let e = esc(s);
        let c0 = s[0];
        if c0 == '\\' || c0 == '\n' || c0 == ' ' {
            assert(e.subrange(2, e.len() as int) =~= esc(s.drop_first()));
            assert(unesc(e) == Some(seq![c0] + s.drop_first()));
        } else {
            assert(e.drop_first() =~= esc(s.drop_first()));
            assert(unesc(e) == Some(seq![c0] + s.drop_first()));
        }
        assert(seq![c0] + s.drop_first() =~= s);
    }
}

// ---------------------------------------------------------------------------
// Splitting a line into tokens on single spaces
// ---------------------------------------------------------------------------

/// The tokens of a line: splitting on every space, keeping empty tokens,
/// so that the result always holds at least one token.
pub open spec fn split_sp(s: Seq<char>) -> Seq<Seq<char>>
    decreases s.len(),
{
    if s.len() == 0 {
        seq![Seq::empty()]
    } else {
        let rest = split_sp(s.drop_last());
        if s.last() == ' ' {
            rest + seq![Seq::<char>::empty()]
        } else {
            rest.update(rest.len() - 1, rest.last().push(s.last()))
        }
    }
}

/// The inverse of `split_sp`: the tokens separated by single spaces.
pub open spec fn join(ts: Seq<Seq<char>>) -> Seq<char>
    decreases ts.len(),
{
    if ts.len() == 0 {
        Seq::empty()
    } else if ts.len() == 1 {
        ts[0]
    } else {
        join(ts.drop_last()) + seq![' '] + ts.last()
    }
}

pub proof fn lemma_split_len(s: Seq<char>)
    ensures
        split_sp(s).len() >= 1,
    decreases s.len(),
{
    if s.len() > 0 {
        lemma_split_len(s.drop_last());
    }
}

/// Splitting a token that holds no separator gives back just that token.
pub proof fn lemma_split_sep_free(t: Seq<char>)
    requires
        sep_free(t),
    ensures
        split_sp(t) == seq![t],
    decreases t.len(),
{
    if t.len() == 0 {
        assert(Seq::<char>::empty() =~= t);
    } else {
        assert(sep_free(t.drop_last()));
        lemma_split_sep_free(t.drop_last());
        assert(t.last() != ' ');
        assert(t.drop_last().push(t.last()) =~= t);
        assert(split_sp(t) =~= seq![t]);
    }
}

/// Appending a space and a separator-free token to a line appends exactly
/// one token to its split.
pub proof fn lemma_split_append(s: Seq<char>, t: Seq<char>)
    requires
        sep_free(t),
    ensures
        split_sp(s + seq![' '] + t) == split_sp(s) + seq![t],
    decreases t.len(),
{
    if t.len() == 0 {
        let u = s + seq![' '] + t;
        assert(u =~= s + seq![' ']);
        assert(u.len() == s.len() + 1);
        assert(u.last() == ' ');
        assert(u.drop_last() =~= s);
        assert(t =~= Seq::<char>::empty());
        assert(split_sp(u) == split_sp(s) + seq![Seq::<char>::empty()]);
        assert(split_sp(u) =~= split_sp(s) + seq![t]);
    } else {
        let u = s + seq![' '] + t;
        assert(sep_free(t.drop_last()));
        lemma_split_append(s, t.drop_last());
        assert(u.drop_last() =~= s + seq![' '] + t.drop_last());
        assert(u.last() == t.last());
        assert(t.last() != ' ');
        let prev = split_sp(s) + seq![t.drop_last()];
        assert(split_sp(u.drop_last()) == prev);
        lemma_split_len(s);
        assert(prev.last() == t.drop_last());
        assert(t.drop_last().push(t.last()) =~= t);
        assert(prev.update(prev.len() - 1, t) =~= split_sp(s) + seq![t]);
    }
}

/// Joining separator-free tokens and splitting again gives the tokens back.
pub proof fn lemma_split_join(ts: Seq<Seq<char>>)
    requires
        ts.len() >= 1,
        forall|i: int| 0 <= i < ts.len() ==> sep_free(#[trigger] ts[i]),
    ensures
        split_sp(join(ts)) == ts,
    decreases ts.len(),
{
    if ts.len() == 1 {
        lemma_split_sep_free(ts[0]);
        assert(seq![ts[0]] =~= ts);
    } else {
        assert(forall|i: int|
            0 <= i < ts.drop_last().len() ==> sep_free(#[trigger] ts.drop_last()[i]));
        lemma_split_join(ts.drop_last());
        lemma_split_append(join(ts.drop_last()), ts.last());
        assert(split_sp(join(ts)) == ts.drop_last() + seq![ts.last()]);
        assert(ts.drop_last() + seq![ts.last()] =~= ts);
    }
}

/// A joined line of newline-free tokens holds no newline, so it can travel
/// as one line of the protocol.
pub proof fn lemma_join_no_newline(ts: Seq<Seq<char>>)
    requires
        forall|i: int, j: int|
            0 <= i < ts.len() && 0 <= j < ts[i].len() ==> #[trigger] ts[i][j] != '\n',
    ensures
        forall|k: int| 0 <= k < join(ts).len() ==> #[trigger] join(ts)[k] != '\n',
    decreases ts.len(),
{
    if ts.len() <= 1 {
    } else {
        assert(forall|i: int, j: int|
            0 <= i < ts.drop_last().len() && 0 <= j < ts.drop_last()[i].len()
                ==> #[trigger] ts.drop_last()[i][j] != '\n');
        lemma_join_no_newline(ts.drop_last());
        let j1 = join(ts.drop_last());
        assert forall|k: int| 0 <= k < join(ts).len() implies #[trigger] join(ts)[k] != '\n' by {
            if k < j1.len() {
                assert(join(ts)[k] == j1[k]);
            } else if k == j1.len() {
                assert(join(ts)[k] == ' ');
            } else {
                assert(join(ts)[k] == ts.last()[k - j1.len() - 1]);
                assert(ts[ts.len() - 1][k - j1.len() - 1] != '\n');
            }
        }
    }
}

// ---------------------------------------------------------------------------
// Messages: a tag character and a list of fields
// ---------------------------------------------------------------------------

/// The token list of a message: the tag alone, then one escaped token per
/// field.
pub open spec fn msg_tokens(tag: char, fields: Seq<Seq<char>>) -> Seq<Seq<char>> {
    seq![seq![tag]] + fields.map_values(|f: Seq<char>| esc(f))
}

/// The encoded line of a message.
pub open spec fn encode_msg_sp(tag: char, fields: Seq<Seq<char>>) -> Seq<char> {
    join(msg_tokens(tag, fields))
}

/// Unescaping of every token of a list; fails if any token fails.
pub open spec fn unesc_all(ts: Seq<Seq<char>>) -> Option<Seq<Seq<char>>>
    decreases ts.len(),
{
    if ts.len() == 0 {
        Some(Seq::empty())
    } else {
        match (unesc_all(ts.drop_last()), unesc(ts.last())) {
            (Some(init), Some(f)) => Some(init.push(f)),
            _ => None,
        }
    }
}

/// The decoded form of a line: the tag character of its first token, which
/// must be exactly one character long, and the unescaped remaining tokens.
pub open spec fn decode_msg_sp(s: Seq<char>) -> Option<(char, Seq<Seq<char>>)> {
    let ts = split_sp(s);
    if ts[0].len() == 1 {
        match unesc_all(ts.drop_first()) {
            Some(fields) => Some((ts[0][0], fields)),
            None => None,
        }
    } else {
        None
    }
}

pub proof fn lemma_unesc_all_esc(fields: Seq<Seq<char>>)
    ensures
        unesc_all(fields.map_values(|f: Seq<char>| esc(f))) == Some(fields),
    decreases fields.len(),
{
    let m = fields.map_values(|f: Seq<char>| esc(f));
    if fields.len() == 0 {
        assert(m.len() == 0);
    } else {
        lemma_unesc_all_esc(fields.drop_last());
        assert(m.drop_last() =~= fields.drop_last().map_values(|f: Seq<char>| esc(f)));
        assert(m.last() == esc(fields.last()));
        lemma_unesc_esc(fields.last());
        assert(fields.drop_last().push(fields.last()) =~= fields);
    }
}

/// Decoding inverts encoding for every message whose tag is no separator.
pub proof fn lemma_msg_round_trip(tag: char, fields: Seq<Seq<char>>)
    requires
        tag != ' ',
        tag != '\n',
    ensures
        decode_msg_sp(encode_msg_sp(tag, fields)) == Some((tag, fields)),
{
    let ts = msg_tokens(tag, fields);
    assert forall|i: int| 0 <= i < ts.len() implies sep_free(#[trigger] ts[i]) by {
        if i == 0 {
            assert(ts[0] =~= seq![tag]);
        } else {
            assert(ts[i] == esc(fields[i - 1]));
            lemma_esc_sep_free(fields[i - 1]);
        }
    }
    lemma_split_join(ts);
    assert(ts[0] =~= seq![tag]);
    assert(ts.drop_first() =~= fields.map_values(|f: Seq<char>| esc(f)));
    lemma_unesc_all_esc(fields);
}

/// An encoded message holds no newline, so it travels as a single line.
pub proof fn lemma_msg_no_newline(tag: char, fields: Seq<Seq<char>>)
    requires
        tag != '\n',
    ensures
        forall|k: int|
            0 <= k < encode_msg_sp(tag, fields).len() ==> #[trigger] encode_msg_sp(
                tag,
                fields,
            )[k] != '\n',
{
    let ts = msg_tokens(tag, fields);
    assert forall|i: int, j: int|
        0 <= i < ts.len() && 0 <= j < ts[i].len() implies #[trigger] ts[i][j] != '\n' by {
        if i == 0 {
            assert(ts[0] =~= seq![tag]);
        } else {
            assert(ts[i] == esc(fields[i - 1]));
            lemma_esc_sep_free(fields[i - 1]);
        }
    }
    lemma_join_no_newline(ts);
}

// ---------------------------------------------------------------------------
// Executable encoding
// ---------------------------------------------------------------------------

/// Relies on String::push: appends exactly the given character.
#[verifier::external_body]
pub(crate) fn push_char(s: &mut String, c: char)
    ensures
        final(s)@ == old(s)@.push(c),
{
    s.push(c);
}

proof fn lemma_esc_snoc(s: Seq<char>, c: char)
    ensures
        esc(s.push(c)) == esc(s) + esc_char(c),
{
    assert(s.push(c) =~= s + seq![c]);
    lemma_esc_append(s, seq![c]);
    assert(seq![c].drop_first() =~= Seq::<char>::empty());
    assert(esc(Seq::<char>::empty()) =~= Seq::<char>::empty());
    assert(esc(seq![c]) == esc_char(c) + esc(Seq::<char>::empty()));
    assert(esc(seq![c]) =~= esc_char(c));
}

/// Appends the escaped form of `f` to `out`.
fn escape_onto(out: &mut String, f: &str)
    ensures
        final(out)@ == old(out)@ + esc(f@),
{
    let n: usize = f.unicode_len();
    let mut i: usize = 0;
    while i < n
        invariant
            n == f@.len(),
            0 <= i <= n,
            out@ == old(out)@ + esc(f@.take(i as int)),
        decreases n - i,
    {
        let c = f.get_char(i);
        proof {
            lemma_esc_snoc(f@.take(i as int), c);
            assert(f@.take(i as int).push(c) =~= f@.take(i + 1 as int));
        }
        if c == '\\' {
            push_char(out, '\\');
            push_char(out, '\\');
        } else if c == '\n' {
            push_char(out, '\\');
            push_char(out, 'n');
        } else if c == ' ' {
            push_char(out, '\\');
            push_char(out, 's');
        } else {
            push_char(out, c);
        }
        assert(out@ =~= old(out)@ + esc(f@.take(i + 1 as int)));
        i = i + 1;
    }
    assert(f@.take(n as int) =~= f@);
}

/// Encodes a message as one line: the tag, then each field escaped, the
/// tokens separated by single spaces.
pub fn encode_msg(tag: char, fields: &Vec<String>) -> (r: String)
    ensures
        r@ == encode_msg_sp(tag, fields.deep_view()),
{
    let mut out = String::new();
    push_char(&mut out, tag);
    assert(out@ =~= seq![tag]);
    assert(out@ =~= join(msg_tokens(tag, fields.deep_view().take(0))));
    let mut i: usize = 0;
    let n: usize = fields.len();
    while i < n
        invariant
            n == fields.len(),
            0 <= i <= n,
            out@ == join(msg_tokens(tag, fields.deep_view().take(i as int))),
        decreases n - i,
    {
        push_char(&mut out, ' ');
        escape_onto(&mut out, fields[i].as_str());
        proof {
            let dv = fields.deep_view();
            let ts0 = msg_tokens(tag, dv.take(i as int));
            let ts1 = msg_tokens(tag, dv.take(i + 1 as int));
            assert(dv.take(i + 1 as int) =~= dv.take(i as int).push(dv[i as int]));
            assert(dv.take(i + 1 as int).map_values(|f: Seq<char>| esc(f)) =~= dv.take(
                i as int,
            ).map_values(|f: Seq<char>| esc(f)).push(esc(dv[i as int])));
            assert(ts1 =~= ts0.push(esc(dv[i as int])));
            assert(ts1.drop_last() =~= ts0);
            assert(ts1.len() >= 2);
            assert(join(ts1) == join(ts0) + seq![' '] + esc(dv[i as int]));
            assert(fields[i as int]@ == dv[i as int]);
            assert(out@ =~= join(ts1));
        }
        i = i + 1;
    }
    proof {
        assert(fields.deep_view().take(n as int) =~= fields.deep_view());
    }
    out
}

// ---------------------------------------------------------------------------
// Executable decoding
// ---------------------------------------------------------------------------

/// Splits a line into its tokens at every space.
fn split_line(line: &str) -> (r: Vec<String>)
    ensures
        r.deep_view() == split_sp(line@),
        r.len() >= 1,
{
    let mut tokens: Vec<String> = Vec::new();
    tokens.push(String::new());
    assert(tokens.deep_view() =~= split_sp(line@.take(0)));
    let n: usize = line.unicode_len();
    let mut i: usize = 0;
    while i < n
        invariant
            n == line@.len(),
            0 <= i <= n,
            tokens.len() >= 1,
            tokens.deep_view() == split_sp(line@.take(i as int)),
        decreases n - i,
    {
        let c = line.get_char(i);
        proof {
            assert(line@.take(i + 1 as int).drop_last() =~= line@.take(i as int));
            assert(line@.take(i + 1 as int).last() == c);
        }
        if c == ' ' {
            tokens.push(String::new());
            assert(tokens.deep_view() =~= split_sp(line@.take(i + 1 as int)));
        } else {
            if let Some(mut cur) = tokens.pop() {
                push_char(&mut cur, c);
                tokens.push(cur);
            }
            assert(tokens.deep_view() =~= split_sp(line@.take(i + 1 as int)));
        }
        i = i + 1;
    }
    proof {
        assert(line@.take(n as int) =~= line@);
        lemma_split_len(line@);
    }
    tokens
}

/// Unescapes one token; `None` on a dangling backslash or an unknown escape.
fn unescape(f: &str) -> (r: Option<String>)
    ensures
        match r {
            Some(t) => unesc(f@) == Some(t@),
            None => unesc(f@) is None,
        },
{
    let n: usize = f.unicode_len();
    let mut out = String::new();
    let mut i: usize = 0;
    assert(f@.skip(0) =~= f@);
    while i < n
        invariant
            n == f@.len(),
            0 <= i <= n,
            unesc(f@.skip(i as int)) is Some ==> unesc(f@) == Some(
                out@ + unesc(f@.skip(i as int))->0,
            ),
            unesc(f@.skip(i as int)) is None ==> unesc(f@) is None,
        decreases n - i,
    {
        let c = f.get_char(i);
        let ghost suf = f@.skip(i as int);
        if c == '\\' {
            if i + 1 == n {
                proof {
                    assert(suf.len() == 1);
                    assert(suf[0] == '\\');
                    assert(unesc(suf) is None);
                }
                return None;
            }
            let e = f.get_char(i + 1);
            proof {
                assert(suf[0] == '\\');
                assert(suf.len() >= 2);
                assert(suf[1] == e);
                assert(suf.subrange(2, suf.len() as int) =~= f@.skip(i + 2 as int));
            }
            let ghost out0 = out@;
            if e == '\\' {
                push_char(&mut out, '\\');
            } else if e == 'n' {
                push_char(&mut out, '\n');
            } else if e == 's' {
                push_char(&mut out, ' ');
            } else {
                proof {
                    assert(unesc(suf) is None);
                }
                return None;
            }
            proof {
                let d = if e == '\\' {
                    '\\'
                } else if e == 'n' {
                    '\n'
                } else {
                    ' '
                };
                assert(unesc(suf) == match unesc(f@.skip(i + 2 as int)) {
                    Some(rest) => Some(seq![d] + rest),
                    None => None::<Seq<char>>,
                });
                assert(out@ == out0.push(d));
                if unesc(f@.skip(i + 2 as int)) is Some {
                    assert(out@ + unesc(f@.skip(i + 2 as int))->0 =~= out0 + (seq![d] + unesc(
                        f@.skip(i + 2 as int),
                    )->0));
                }
            }
            i = i + 2;
        } else {
            proof {
                assert(suf[0] == c);
                assert(suf.drop_first() =~= f@.skip(i + 1 as int));
                if unesc(f@.skip(i + 1 as int)) is Some {
                    assert(out@.push(c) + unesc(f@.skip(i + 1 as int))->0 =~= out@ + (seq![c]
                        + unesc(f@.skip(i + 1 as int))->0));
                }
            }
            push_char(&mut out, c);
            i = i + 1;
        }
    }
    proof {
        assert(f@.skip(n as int) =~= Seq::<char>::empty());
        assert(out@ + Seq::<char>::empty() =~= out@);
    }
    Some(out)
}

/// Decodes one line into its tag character and unescaped fields.
pub fn decode_msg(line: &str) -> (r: Option<(char, Vec<String>)>)
    ensures
        match r {
            Some(m) => decode_msg_sp(line@) == Some((m.0, m.1.deep_view())),
            None => decode_msg_sp(line@) is None,
        },
{
    let tokens = split_line(line);
    let ghost ts = split_sp(line@);
    if tokens[0].as_str().unicode_len() != 1 {
        assert(ts[0].len() != 1);
        return None;
    }
    let tag = tokens[0].as_str().get_char(0);
    assert(ts[0].len() == 1 && ts[0][0] == tag);
    let mut fields: Vec<String> = Vec::new();
    let n: usize = tokens.len();
    assert(fields.deep_view() =~= Seq::<Seq<char>>::empty());
    assert(ts.drop_first().take(0) =~= Seq::<Seq<char>>::empty());
    let mut i: usize = 1;
    while i < n
        invariant
            n == tokens.len(),
            1 <= i <= n,
            tokens.deep_view() == ts,
            ts == split_sp(line@),
            ts[0].len() == 1,
            ts[0][0] == tag,
            unesc_all(ts.drop_first().take(i - 1)) == Some(fields.deep_view()),
        decreases n - i,
    {
        let ghost done = ts.drop_first().take(i - 1);
        match unescape(tokens[i].as_str()) {
            Some(f) => {
                proof {
                    let done1 = ts.drop_first().take(i as int);
                    assert(done1.drop_last() =~= done);
                    assert(done1.last() == ts[i as int]);
                    assert(tokens[i as int]@ == ts[i as int]);
                }
                fields.push(f);
                assert(fields.deep_view() =~= unesc_all(ts.drop_first().take(i as int))->0);
            },
            None => {
                proof {
                    assert(ts.drop_first()[i - 1] == ts[i as int]);
                    assert(tokens[i as int]@ == ts[i as int]);
                    lemma_unesc_all_extends_none(ts.drop_first(), i - 1);
                }
                return None;
            },
        }
        i = i + 1;
    }
    proof {
        assert(ts.drop_first().take(n - 1) =~= ts.drop_first());
    }
    Some((tag, fields))
}

/// If some token of a list fails to unescape, the whole list fails.
proof fn lemma_unesc_all_extends_none(ts: Seq<Seq<char>>, k: int)
    requires
        0 <= k < ts.len(),
        unesc(ts[k]) is None,
    ensures
        unesc_all(ts) is None,
    decreases ts.len(),
{
    if ts.len() > 0 {
        if k == ts.len() - 1 {
        } else {
            lemma_unesc_all_extends_none(ts.drop_last(), k);
        }
    }
}

} // verus!

