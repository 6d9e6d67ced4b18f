//! Shell export formatting: how a secret's value is escaped for a given
//! shell, and the one line that sets it as an environment variable there.

use vstd::prelude::*;
use vstd::string::StrSliceExecFns;
use vstd::string::StringExecFns;

use crate::codec::push_char;

verus! {

/// The escaping families the formatter distinguishes; an unknown shell is
/// treated as the bash family.
pub enum ShellKind {
    Fish,
    BashLike,
    CshLike,
}

/// Which family a shell name falls in.
pub open spec fn shell_kind_sp(shell: Seq<char>) -> ShellKind {
    if shell == "fish"@ {
        ShellKind::Fish
    } else if shell == "bash"@ || shell == "sh"@ || shell == "zsh"@ {
        ShellKind::BashLike
    } else if shell == "csh"@ || shell == "tcsh"@ {
        ShellKind::CshLike
    } else {
        ShellKind::BashLike
    }
}

/// How one character of a value is written inside the shell's double
/// quotes: fish escapes the dollar sign; the bash family escapes
/// backslash, dollar, backtick and double quote; the csh family escapes
/// dollar, bang and double quote.
pub open spec fn shell_escape_char(k: ShellKind, c: char) -> Seq<char> {
    match k {
        ShellKind::Fish => if c == '$' {
            seq!['\\', c]
        } else {
            seq![c]
        },
        ShellKind::BashLike => if c == '\\' || c == '$' || c == '`' || c == '"' {
            seq!['\\', c]
        } else {
            seq![c]
        },
        ShellKind::CshLike => if c == '$' || c == '!' || c == '"' {
            seq!['\\', c]
        } else {
            seq![c]
        },
    }
}

/// A whole value escaped for the shell family.
pub open spec fn shell_escape(k: ShellKind, s: Seq<char>) -> Seq<char>
    decreases s.len(),
{
    if s.len() == 0 {
        Seq::empty()
    } else {
        shell_escape_char(k, s[0]) + shell_escape(k, s.drop_first())
    }
}

proof fn lemma_shell_escape_snoc(k: ShellKind, s: Seq<char>, c: char)
    ensures
        shell_escape(k, s.push(c)) == shell_escape(k, s) + shell_escape_char(k, c),
    decreases s.len(),
{
    if s.len() == 0 {
        assert(s.push(c).drop_first() =~= Seq::<char>::empty());
        assert(s.push(c)[0] == c);
        assert(shell_escape(k, Seq::<char>::empty()) =~= Seq::<char>::empty());
        assert(shell_escape(k, s.push(c)) == shell_escape_char(k, c) + shell_escape(
            k,
            Seq::<char>::empty(),
        ));
        assert(shell_escape(k, s.push(c)) =~= shell_escape_char(k, c));
        assert(shell_escape(k, s) + shell_escape_char(k, c) =~= shell_escape_char(k, c));
    } else {
        assert(s.push(c).drop_first() =~= s.drop_first().push(c));
        lemma_shell_escape_snoc(k, s.drop_first(), c);
        assert(shell_escape(k, s.push(c)) =~= shell_escape(k, s) + shell_escape_char(k, c));
    }
}

/// Two texts are equal exactly when their character sequences are.
fn str_eq(a: &str, b: &str) -> (r: bool)
    ensures
        r == (a@ == b@),
{
    let na: usize = a.unicode_len();
    let nb: usize = b.unicode_len();
    if na != nb {
        return false;
    }
    let mut i: usize = 0;
    while i < na
        invariant
            na == a@.len(),
            na == b@.len(),
            0 <= i <= na,
            forall|j: int| 0 <= j < i ==> a@[j] == b@[j],
        decreases na - i,
    {
        if a.get_char(i) != b.get_char(i) {
            return false;
        }
        i = i + 1;
    }
    proof {
        assert(a@ =~= b@);
    }
    true
}

/// The family a shell name falls in.
fn shell_kind(shell: &str) -> (k: ShellKind)
    ensures
        k == shell_kind_sp(shell@),
{
    if str_eq(shell, "fish") {
        ShellKind::Fish
    } else if str_eq(shell, "bash") || str_eq(shell, "sh") || str_eq(shell, "zsh") {
        ShellKind::BashLike
    } else if str_eq(shell, "csh") || str_eq(shell, "tcsh") {
        ShellKind::CshLike
    } else {
        ShellKind::BashLike
    }
}

/// A value escaped so it can stand inside the shell's double quotes.
pub fn escape_value_for_shell(value: &str, shell: &str) -> (r: String)
    ensures
        r@ == shell_escape(shell_kind_sp(shell@), value@),
{
    let k = shell_kind(shell);
    let mut out = String::new();
    let n: usize = value.unicode_len();
    let mut i: usize = 0;
    while i < n
        invariant
            n == value@.len(),
            0 <= i <= n,
            k == shell_kind_sp(shell@),
            out@ == shell_escape(k, value@.take(i as int)),
        decreases n - i,
    {
        let c = value.get_char(i);
        proof {
            lemma_shell_escape_snoc(k, value@.take(i as int), c);
            assert(value@.take(i as int).push(c) =~= value@.take(i + 1 as int));
        }
        let escape: bool = match k {
            ShellKind::Fish => c == '$',
            ShellKind::BashLike => c == '\\' || c == '$' || c == '`' || c == '"',
            ShellKind::CshLike => c == '$' || c == '!' || c == '"',
        };
        if escape {
            push_char(&mut out, '\\');
            push_char(&mut out, c);
        } else {
            push_char(&mut out, c);
        }
        assert(out@ =~= shell_escape(k, value@.take(i + 1 as int)));
        i = i + 1;
    }
    proof {
        assert(value@.take(n as int) =~= value@);
    }
    out
}

/// The one line that exports `key` with `value` in the given shell.
pub open spec fn format_export_sp(key: Seq<char>, value: Seq<char>, shell: Seq<char>) -> Seq<
    char,
> {
    let e = shell_escape(shell_kind_sp(shell), value);
    match shell_kind_sp(shell) {
        ShellKind::Fish => "set -gx "@ + key + " \""@ + e + "\""@,
        ShellKind::BashLike => "export "@ + key + "=\""@ + e + "\""@,
        ShellKind::CshLike => "setenv "@ + key + " \""@ + e + "\""@,
    }
}

/// Formats the export line for one secret in the given shell.
pub fn format_export(key: &str, value: &str, shell: &str) -> (r: String)
    ensures
        r@ == format_export_sp(key@, value@, shell@),
{
    let escaped = escape_value_for_shell(value, shell);
    let k = shell_kind(shell);
    let mut out: String;
    match k {
        ShellKind::Fish => {
            out = String::from_str("set -gx ");
            out.append(key);
            out.append(" \"");
        },
        ShellKind::BashLike => {
            out = String::from_str("export ");
            out.append(key);
            out.append("=\"");
        },
        ShellKind::CshLike => {
            out = String::from_str("setenv ");
            out.append(key);
            out.append(" \"");
        },
    }
    out.append(escaped.as_str());
    out.append("\"");
    out
}

} // verus!
