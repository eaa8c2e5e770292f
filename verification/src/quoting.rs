//! Escaping and quoting of texts for the places that they are written to.

use crate::error::{Fault, SyncError};
use crate::text::{chars_of, concat3, contains_char, join_texts, joined, views, views_push};
use vstd::prelude::*;

verus! {

/// Where a text is written to, and so which of its characters are escaped.
#[derive(Clone, Copy, Debug, PartialEq, Eq, Structural)]
pub enum Escape {
    /// A path on the drive: `\`.
    Path,
    /// One segment of a path on the drive: `\` and `/`.
    Segment,
    /// A text in double quotes: `\` and `"`.
    Quoted,
    /// A text in double quotes in a unit file: `\`, `"`, `%` and `$`.
    Unit,
    /// A text in single quotes for a shell: `'`.
    Shell,
}

/// What a character is written as.
pub open spec fn escaped_char(rule: Escape, c: char) -> Seq<char> {
    if rule == Escape::Shell {
        if c == '\'' {
            seq!['\'', '"', '\'', '"', '\'']
        } else {
            seq![c]
        }
    } else if c == '\\' {
        seq!['\\', '\\']
    } else if c == '/' && rule == Escape::Segment {
        seq!['\\', '/']
    } else if c == '"' && (rule == Escape::Quoted || rule == Escape::Unit) {
        seq!['\\', '"']
    } else if (c == '%' || c == '$') && rule == Escape::Unit {
        seq![c, c]
    } else {
        seq![c]
    }
}

/// What a text is written as: each of its characters in turn.
pub open spec fn escaped(rule: Escape, text: Seq<char>) -> Seq<char>
    decreases text.len(),
{
    if text.len() == 0 {
        Seq::empty()
    } else {
        escaped_char(rule, text[0]) + escaped(rule, text.drop_first())
    }
}

fn push_escaped(rule: Escape, c: char, out: &mut String)
    ensures
        final(out)@ == old(out)@ + escaped_char(rule, c),
{
    let ghost before = out@;
    if matches!(rule, Escape::Shell) {
        if c == '\'' {
            out.push('\'');
            out.push('"');
            out.push('\'');
            out.push('"');
            out.push('\'');
        } else {
            out.push(c);
        }
    } else if c == '\\' {
        out.push('\\');
        out.push('\\');
    } else if c == '/' && matches!(rule, Escape::Segment) {
        out.push('\\');
        out.push('/');
    } else if c == '"' && matches!(rule, Escape::Quoted | Escape::Unit) {
        out.push('\\');
        out.push('"');
    } else if (c == '%' || c == '$') && matches!(rule, Escape::Unit) {
        out.push(c);
        out.push(c);
    } else {
        out.push(c);
    }
    assert(out@ =~= before + escaped_char(rule, c));
}

/// Writes a text under a rule.
pub fn escape(rule: Escape, text: &str) -> (r: String)
    ensures
        r@ == escaped(rule, text@),
{
    let chars = chars_of(text);
    let mut out = String::new();
    let mut i: usize = 0;
    assert(text@.skip(0) =~= text@);
    assert(out@ + escaped(rule, text@) =~= escaped(rule, text@));
    while i < chars.len()
        invariant
            chars@ == text@,
            i <= chars.len(),
            escaped(rule, text@) == out@ + escaped(rule, text@.skip(i as int)),
        decreases chars.len() - i,
    {
        let ghost before = out@;
        push_escaped(rule, chars[i], &mut out);
        proof {
            let rest = text@.skip(i as int);
            assert(rest.drop_first() =~= text@.skip(i + 1));
            assert(before + (escaped_char(rule, rest[0]) + escaped(rule, rest.drop_first()))
                =~= out@ + escaped(rule, text@.skip(i + 1)));
        }
        i += 1;
    }
    assert(text@.skip(i as int).len() == 0);
    assert(out@ + escaped(rule, text@.skip(i as int)) =~= out@);
    out
}

/// A text in double quotes, as the prompt of the command line client reads it.
pub open spec fn quoted(text: Seq<char>) -> Seq<char> {
    "\""@ + escaped(Escape::Quoted, text) + "\""@
}

/// Quotes one argument for the prompt of the command line client.
pub fn quote_repl_argument(argument: &str) -> (r: String)
    ensures
        r@ == quoted(argument@),
{
    concat3("\"", escape(Escape::Quoted, argument).as_str(), "\"")
}

/// Quotes one argument of a dinit service command.
pub fn dinit_quote(value: &str) -> (r: String)
    ensures
        r@ == quoted(value@),
{
    concat3("\"", escape(Escape::Quoted, value).as_str(), "\"")
}

/// A text in double quotes in a systemd unit.
pub open spec fn unit_quoted(text: Seq<char>) -> Seq<char> {
    "\""@ + escaped(Escape::Unit, text) + "\""@
}

/// Quotes one argument of a systemd unit command.
pub fn systemd_quote(path: &str) -> (r: String)
    ensures
        r@ == unit_quoted(path@),
{
    concat3("\"", escape(Escape::Unit, path).as_str(), "\"")
}

/// A text in single quotes for a shell.
pub open spec fn shell_quoted(text: Seq<char>) -> Seq<char> {
    "'"@ + escaped(Escape::Shell, text) + "'"@
}

/// Quotes one word for a shell.
pub fn shell_quote(value: &str) -> (r: String)
    ensures
        r@ == shell_quoted(value@),
{
    concat3("'", escape(Escape::Shell, value).as_str(), "'")
}

/// No line break in any argument.
pub open spec fn on_one_line(arguments: Seq<Seq<char>>) -> bool {
    forall|i: int|
        0 <= i < arguments.len() ==> !(#[trigger] arguments[i]).contains('\n')
            && !arguments[i].contains('\r')
}

/// Whether the prompt of the command line client can take the arguments.
pub fn repl_arguments_supported(arguments: &Vec<String>) -> (r: bool)
    ensures
        r == on_one_line(views(arguments@)),
{
    let mut i: usize = 0;
    while i < arguments.len()
        invariant
            i <= arguments.len(),
            forall|k: int|
                0 <= k < i ==> !(#[trigger] views(arguments@)[k]).contains('\n') && !views(
                    arguments@,
                )[k].contains('\r'),
        decreases arguments.len() - i,
    {
        let argument = arguments[i].as_str();
        if contains_char(argument, '\n') || contains_char(argument, '\r') {
            assert(views(arguments@)[i as int] == argument@);
            return false;
        }
        i += 1;
    }
    true
}

/// Refuses arguments that the prompt of the command line client cannot take.
pub fn reject_repl_newlines(arguments: &Vec<String>) -> (r: Result<(), SyncError>)
    ensures
        match r {
            Ok(_) => on_one_line(views(arguments@)),
            Err(error) => !on_one_line(views(arguments@)) && error@ == Fault::<
                Seq<char>,
            >::NewlineArgument,
        },
{
    if repl_arguments_supported(arguments) {
        Ok(())
    } else {
        Err(Fault::NewlineArgument)
    }
}

/// Every text of a list, quoted.
pub open spec fn all_quoted(arguments: Seq<Seq<char>>) -> Seq<Seq<char>> {
    arguments.map_values(|argument: Seq<char>| quoted(argument))
}

/// Quoted arguments on one line, with a space between neighbours.
pub fn quote_all(arguments: &Vec<String>) -> (r: String)
    ensures
        r@ == joined(all_quoted(views(arguments@)), " "@),
{
    let mut words: Vec<String> = Vec::new();
    let mut i: usize = 0;
    while i < arguments.len()
        invariant
            i <= arguments.len(),
            views(words@) == all_quoted(views(arguments@)).take(i as int),
        decreases arguments.len() - i,
    {
        let ghost before = words@;
        words.push(quote_repl_argument(arguments[i].as_str()));
        proof {
            views_push(before, words@.last());
        }
        assert(views(words@) =~= all_quoted(views(arguments@)).take(i + 1));
        i += 1;
    }
    assert(views(words@) =~= all_quoted(views(arguments@)));
    join_texts(&words, " ")
}

/// The line that the prompt of the command line client is given for a command.
pub fn repl_command_line(arguments: &Vec<String>) -> (r: Result<String, SyncError>)
    ensures
        match r {
            Ok(line) => on_one_line(views(arguments@)) && line@ == joined(
                all_quoted(views(arguments@)),
                " "@,
            ) + "\n"@,
            Err(error) => !on_one_line(views(arguments@)) && error@ == Fault::<
                Seq<char>,
            >::NewlineArgument,
        },
{
    match reject_repl_newlines(arguments) {
        Err(error) => Err(error),
        Ok(_) => {
            let mut line = quote_all(arguments);
            line.append("\n");
            Ok(line)
        },
    }
}

/// Different texts are escaped differently.
pub proof fn escaped_is_injective(rule: Escape, a: Seq<char>, b: Seq<char>)
    requires
        escaped(rule, a) == escaped(rule, b),
    ensures
        a == b,
    decreases a.len(),
{
    let ea = escaped(rule, a);
    let eb = escaped(rule, b);
    if a.len() == 0 || b.len() == 0 {
        if a.len() > 0 {
            assert(ea.len() >= escaped_char(rule, a[0]).len());
        }
        if b.len() > 0 {
            assert(eb.len() >= escaped_char(rule, b[0]).len());
        }
        assert(a =~= b);
    } else {
        let ca = escaped_char(rule, a[0]);
        let cb = escaped_char(rule, b[0]);
        let ra = escaped(rule, a.drop_first());
        let rb = escaped(rule, b.drop_first());
        assert(ea == ca + ra && eb == cb + rb);
        assert(ea[0] == ca[0] && eb[0] == cb[0]);
        if ca.len() >= 2 && cb.len() >= 2 {
            assert(ea[1] == ca[1] && eb[1] == cb[1]);
        }
        if rule == Escape::Shell {
            assert(a[0] == b[0]);
        } else {
            assert(a[0] == b[0]);
        }
        assert(ca == cb);
        assert(ra =~= ea.skip(ca.len() as int));
        assert(rb =~= eb.skip(cb.len() as int));
        escaped_is_injective(rule, a.drop_first(), b.drop_first());
        assert(a =~= seq![a[0]] + a.drop_first());
        assert(b =~= seq![b[0]] + b.drop_first());
    }
}

/// Whether a text has no line break in it.
pub open spec fn unbroken(text: Seq<char>) -> bool {
    !text.contains('\n') && !text.contains('\r')
}

proof fn unbroken_parts(a: Seq<char>, b: Seq<char>)
    requires
        unbroken(a),
        unbroken(b),
    ensures
        unbroken(a + b),
{
    let all = a + b;
    assert forall|i: int| 0 <= i < all.len() implies all[i] != '\n' && all[i] != '\r' by {
        if i < a.len() {
            assert(a.contains(a[i]));
        } else {
            assert(b.contains(b[i - a.len()]));
        }
    }
}

proof fn escaping_breaks_nothing(rule: Escape, text: Seq<char>)
    requires
        unbroken(text),
    ensures
        unbroken(escaped(rule, text)),
    decreases text.len(),
{
    if text.len() > 0 {
        let rest = text.drop_first();
        assert(text.contains(text[0]));
        assert forall|i: int| 0 <= i < rest.len() implies text.contains(#[trigger] rest[i]) by {
            assert(text[i + 1] == rest[i]);
        }
        escaping_breaks_nothing(rule, rest);
        unbroken_parts(escaped_char(rule, text[0]), escaped(rule, rest));
    }
}

proof fn joining_breaks_nothing(parts: Seq<Seq<char>>, separator: Seq<char>)
    requires
        unbroken(separator),
        forall|i: int| 0 <= i < parts.len() ==> unbroken(#[trigger] parts[i]),
    ensures
        unbroken(joined(parts, separator)),
    decreases parts.len(),
{
    if parts.len() > 1 {
        let rest = joined(parts.drop_last(), separator);
        joining_breaks_nothing(parts.drop_last(), separator);
        unbroken_parts(rest, separator);
        unbroken_parts(rest + separator, parts.last());
    } else if parts.len() == 1 {
        assert(unbroken(parts[0]));
    }
}

/// Arguments that are fit for the prompt make one line of it: there is no line break in what is
/// given to the prompt, but for the one that ends it.
pub proof fn prompt_line_is_unbroken(arguments: Seq<Seq<char>>)
    requires
        on_one_line(arguments),
    ensures
        unbroken(joined(all_quoted(arguments), " "@)),
{
    reveal_strlit(" ");
    reveal_strlit("\"");
    let parts = all_quoted(arguments);
    assert forall|i: int| 0 <= i < parts.len() implies unbroken(#[trigger] parts[i]) by {
        let inside = escaped(Escape::Quoted, arguments[i]);
        escaping_breaks_nothing(Escape::Quoted, arguments[i]);
        unbroken_parts("\""@, inside);
        unbroken_parts("\""@ + inside, "\""@);
    }
    joining_breaks_nothing(parts, " "@);
}

} // verus!
