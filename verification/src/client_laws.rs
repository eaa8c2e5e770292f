//! What becomes of texts that others read, of the caches of the client, and of the service.

use crate::cache::{switch_started, CacheOutcome, CacheReply, CacheRequest, CacheSwitch};
use crate::cli::{invocation, CallRequestView};
use crate::error::Fault;
use crate::exchange::Progress;
use crate::interval::run_interval;
use crate::places::path_joined;
use crate::prompt::{before_prompt, prompt_bytes};
use crate::quoting::{all_quoted, escaped, escaped_char, on_one_line, quoted, shell_quoted};
use crate::quoting::{unit_quoted, Escape};
use crate::service::{healthy, resolution, InitSystem, ResolutionView};
use crate::text::{decimal, is_white_space, joined, trimmed, trimmed_blank_end, trimmed_start};
use crate::world::{digests_ignore_case, same_digest};
use vstd::prelude::*;

verus! {

/// What stands before the closing double quote of a text, with every backslash taken for what
/// follows it, and what stands behind that quote.
pub open spec fn up_to_the_quote(text: Seq<char>) -> Option<(Seq<char>, Seq<char>)>
    decreases text.len(),
{
    if text.len() == 0 {
        None
    } else if text[0] == '"' {
        Some((Seq::empty(), text.skip(1)))
    } else if text[0] == '\\' {
        if text.len() < 2 {
            None
        } else {
            match up_to_the_quote(text.skip(2)) {
                Some((word, rest)) => Some((seq![text[1]] + word, rest)),
                None => None,
            }
        }
    } else {
        match up_to_the_quote(text.skip(1)) {
            Some((word, rest)) => Some((seq![text[0]] + word, rest)),
            None => None,
        }
    }
}

/// The words of a line: each in double quotes, one blank between them, and a line break at the end.
pub open spec fn words_of(line: Seq<char>) -> Option<Seq<Seq<char>>>
    decreases line.len(),
{
    if line == seq!['\n'] {
        Some(Seq::empty())
    } else if line.len() == 0 || line[0] != '"' {
        None
    } else {
        match up_to_the_quote(line.skip(1)) {
            None => None,
            Some((word, rest)) => if rest == seq!['\n'] {
                Some(seq![word])
            } else if rest.len() == 0 || rest.len() >= line.len() || rest[0] != ' ' {
                None
            } else {
                match words_of(rest.skip(1)) {
                    Some(words) => Some(seq![word] + words),
                    None => None,
                }
            },
        }
    }
}

proof fn quoted_is_read_back(word: Seq<char>, rest: Seq<char>)
    ensures
        up_to_the_quote(escaped(Escape::Quoted, word) + seq!['"'] + rest) == Some((word, rest)),
    decreases word.len(),
{
    let text = escaped(Escape::Quoted, word) + seq!['"'] + rest;
    if word.len() == 0 {
        assert(text =~= seq!['"'] + rest);
        assert(text.skip(1) =~= rest);
        assert(word =~= Seq::<char>::empty());
    } else {
        let left = word.drop_first();
        let more = escaped(Escape::Quoted, left) + seq!['"'] + rest;
        let first = escaped_char(Escape::Quoted, word[0]);
        quoted_is_read_back(left, rest);
        assert(text =~= first + more);
        assert(text.skip(first.len() as int) =~= more);
        assert(text[0] == first[0]);
        if first.len() == 2 {
            assert(text[1] == first[1]);
        }
        assert(seq![word[0]] + left =~= word);
    }
}

proof fn joined_from_the_front(parts: Seq<Seq<char>>, separator: Seq<char>)
    requires
        parts.len() > 1,
    ensures
        joined(parts, separator) == parts[0] + separator + joined(parts.drop_first(), separator),
    decreases parts.len(),
{
    let (front, back) = (parts.drop_last(), parts.drop_first());
    if parts.len() == 2 {
        assert(joined(front, separator) == parts[0]);
        assert(joined(back, separator) == parts[1]);
    } else {
        joined_from_the_front(front, separator);
        assert(front.drop_first() =~= back.drop_last());
        assert(back.last() == parts.last());
        assert(joined(parts, separator) =~= parts[0] + separator + joined(back, separator));
    }
}

proof fn words_are_read_back(words: Seq<Seq<char>>)
    ensures
        words_of(joined(all_quoted(words), " "@) + "\n"@) == Some(words),
    decreases words.len(),
{
    reveal_strlit(" ");
    reveal_strlit("\n");
    reveal_strlit("\"");
    assert(" "@ =~= seq![' ']);
    assert("\n"@ =~= seq!['\n']);
    assert("\""@ =~= seq!['"']);
    let all = all_quoted(words);
    let line = joined(all, " "@) + "\n"@;
    if words.len() == 0 {
        assert(line =~= seq!['\n']);
        assert(words =~= Seq::<Seq<char>>::empty());
    } else {
        let word = words[0];
        let left = words.drop_first();
        assert(all[0] == quoted(word));
        assert(all_quoted(left) =~= all.drop_first());
        let rest = if words.len() == 1 {
            seq!['\n']
        } else {
            seq![' '] + (joined(all_quoted(left), " "@) + "\n"@)
        };
        if words.len() > 1 {
            joined_from_the_front(all, " "@);
        }
        assert(line =~= quoted(word) + rest);
        assert(line.skip(1) =~= escaped(Escape::Quoted, word) + seq!['"'] + rest);
        assert(line[0] == '"');
        quoted_is_read_back(word, rest);
        if words.len() == 1 {
            assert(words =~= seq![word]);
        } else {
            words_are_read_back(left);
            assert(rest.skip(1) =~= joined(all_quoted(left), " "@) + "\n"@);
            assert(rest[0] == ' ');
            assert(seq![word] + left =~= words);
        }
    }
}

/// A command without line breaks in it is given to the prompt of the client, on a line that is read
/// as the arguments of the command; any other is given to a run of its own, as it is.
pub proof fn a_command_is_read_as_it_was_given(arguments: Seq<Seq<char>>)
    ensures
        on_one_line(arguments) ==> (invocation(arguments) matches CallRequestView::Prompt { line }
            && words_of(line) == Some(arguments)),
        !on_one_line(arguments) ==> invocation(arguments) == (CallRequestView::Run { arguments }),
{
    words_are_read_back(arguments);
}

/// What a shell makes of a word: what is in single quotes and what is in double quotes, without the
/// quotes. `open` is the quote that is open.
pub open spec fn shell_word(text: Seq<char>, open: Option<char>) -> Option<Seq<char>>
    decreases text.len(),
{
    if text.len() == 0 {
        if open is None {
            Some(Seq::empty())
        } else {
            None
        }
    } else {
        let rest = text.drop_first();
        match open {
            None => if text[0] == '\'' || text[0] == '"' {
                shell_word(rest, Some(text[0]))
            } else {
                None
            },
            Some(quote) => if text[0] == quote {
                shell_word(rest, None)
            } else {
                match shell_word(rest, open) {
                    Some(word) => Some(seq![text[0]] + word),
                    None => None,
                }
            },
        }
    }
}

proof fn shell_reads_on(text: Seq<char>)
    ensures
        shell_word(escaped(Escape::Shell, text) + seq!['\''], Some('\'')) == Some(text),
    decreases text.len(),
{
    let all = escaped(Escape::Shell, text) + seq!['\''];
    if text.len() == 0 {
        assert(all =~= seq!['\'']);
        assert(all.drop_first() =~= Seq::<char>::empty());
        assert(shell_word(all.drop_first(), None) == Some(Seq::<char>::empty()));
        assert(text =~= Seq::<char>::empty());
    } else {
        let left = text.drop_first();
        let more = escaped(Escape::Shell, left) + seq!['\''];
        shell_reads_on(left);
        assert(seq![text[0]] + left =~= text);
        if text[0] == '\'' {
            let last = seq!['\''] + more;
            let fourth = seq!['"'] + last;
            let third = seq!['\''] + fourth;
            let second = seq!['"'] + third;
            assert(all =~= seq!['\''] + second);
            assert(last.drop_first() =~= more);
            assert(fourth.drop_first() =~= last);
            assert(third.drop_first() =~= fourth);
            assert(second.drop_first() =~= third);
            assert(all.drop_first() =~= second);
            assert(shell_word(last, None) == Some(left));
            assert(shell_word(fourth, Some('"')) == Some(left));
            assert(shell_word(third, Some('"')) == Some(seq!['\''] + left));
            assert(shell_word(second, None) == Some(seq!['\''] + left));
        } else {
            assert(all =~= seq![text[0]] + more);
            assert(all.drop_first() =~= more);
        }
    }
}

/// A shell reads a word that was quoted for it as the word itself.
pub proof fn a_shell_reads_what_was_quoted(text: Seq<char>)
    ensures
        shell_word(shell_quoted(text), None) == Some(text),
{
    reveal_strlit("'");
    assert("'"@ =~= seq!['\'']);
    let inner = escaped(Escape::Shell, text) + seq!['\''];
    shell_reads_on(text);
    assert(shell_quoted(text) =~= seq!['\''] + inner);
    assert(shell_quoted(text).drop_first() =~= inner);
}

/// What a unit file means by a word whose opening quote is passed: a backslash stands for what follows
/// it, and two percent or dollar signs for one.
pub open spec fn unit_word(text: Seq<char>) -> Option<Seq<char>>
    decreases text.len(),
{
    if text.len() == 0 {
        None
    } else if text[0] == '"' {
        if text.len() == 1 {
            Some(Seq::empty())
        } else {
            None
        }
    } else if text[0] == '\\' || text[0] == '%' || text[0] == '$' {
        if text.len() < 2 || text[0] != '\\' && text[1] != text[0] {
            None
        } else {
            match unit_word(text.skip(2)) {
                Some(word) => Some(seq![text[1]] + word),
                None => None,
            }
        }
    } else {
        match unit_word(text.skip(1)) {
            Some(word) => Some(seq![text[0]] + word),
            None => None,
        }
    }
}

proof fn unit_reads_on(word: Seq<char>)
    ensures
        unit_word(escaped(Escape::Unit, word) + seq!['"']) == Some(word),
    decreases word.len(),
{
    let text = escaped(Escape::Unit, word) + seq!['"'];
    if word.len() == 0 {
        assert(text =~= seq!['"']);
        assert(word =~= Seq::<char>::empty());
    } else {
        let left = word.drop_first();
        let more = escaped(Escape::Unit, left) + seq!['"'];
        let first = escaped_char(Escape::Unit, word[0]);
        unit_reads_on(left);
        assert(text =~= first + more);
        assert(text.skip(first.len() as int) =~= more);
        assert(text[0] == first[0]);
        if first.len() == 2 {
            assert(text[1] == first[1]);
        }
        assert(seq![word[0]] + left =~= word);
    }
}

/// A unit file means by a word that was quoted for it the word itself.
pub proof fn a_unit_means_what_was_quoted(text: Seq<char>)
    ensures
        unit_quoted(text).len() > 0 && unit_quoted(text)[0] == '"',
        unit_word(unit_quoted(text).skip(1)) == Some(text),
{
    reveal_strlit("\"");
    assert("\""@ =~= seq!['"']);
    unit_reads_on(text);
    assert(unit_quoted(text).skip(1) =~= escaped(Escape::Unit, text) + seq!['"']);
}

/// The number that a text of digits stands for.
pub open spec fn number_in(text: Seq<char>) -> int
    decreases text.len(),
{
    if text.len() == 0 {
        0
    } else {
        number_in(text.drop_last()) * 10 + (text.last() as int - '0' as int)
    }
}

/// A number is written in digits that stand for it, without leading zeros.
pub proof fn a_number_is_read_back(n: nat)
    ensures
        number_in(decimal(n)) == n,
        decimal(n).len() > 0,
        n > 0 ==> decimal(n)[0] != '0',
        forall|i: int| 0 <= i < decimal(n).len() ==> '0' <= #[trigger] decimal(n)[i] <= '9',
    decreases n,
{
    reveal_with_fuel(number_in, 2);
    let text = decimal(n);
    if n < 10 {
        assert(text.drop_last() =~= Seq::<char>::empty());
    } else {
        a_number_is_read_back(n / 10);
        assert(text.drop_last() =~= decimal(n / 10));
        assert(text[0] == decimal(n / 10)[0]);
        assert forall|i: int| 0 <= i < text.len() implies '0' <= #[trigger] text[i] <= '9' by {
            if i < text.len() - 1 {
                assert(text[i] == decimal(n / 10)[i]);
            }
        }
    }
}

/// The caches that there are, each with the mode that it takes when it is asked for write-ahead
/// logging.
pub type Caches = spec_fn(Seq<char>) -> Option<Seq<char>>;

/// A switch that goes on, for at most so many steps, with caches that answer as they are.
pub open spec fn switch_ends(
    caches: Caches,
    at: Progress<CacheSwitch<Seq<char>>, CacheRequest<Seq<char>>, nat>,
    steps: nat,
) -> CacheOutcome
    decreases steps,
{
    match at {
        Progress::Ask(run, request) => if steps == 0 {
            Ok(at)
        } else {
            let reply = match request {
                CacheRequest::IsFile { path } => CacheReply::Found(caches(path) is Some),
                CacheRequest::EnableWal { path } => CacheReply::Mode(caches(path)->0),
            };
            match run.stepped(reply) {
                Ok(next) => switch_ends(caches, next, (steps - 1) as nat),
                Err(fault) => Err(fault),
            }
        },
        Progress::Done(_) => Ok(at),
    }
}

/// Whether a cache is not there, or takes the mode that it is asked for.
pub open spec fn takes_wal(mode: Option<Seq<char>>) -> bool {
    mode matches Some(mode) ==> same_digest(mode, "wal"@)
}

/// A switch turns the caches that there are to write-ahead logging, the one of the entities before the
/// one of the keys, and counts them. It fails for the first that does not take the mode.
pub proof fn which_caches_are_switched(caches: Caches, directory: Seq<char>)
    ensures
        ({
            let entities = path_joined(directory, "cache-entities.sqlite"@);
            let keys = path_joined(directory, "cache-crypto.sqlite"@);
            let end = switch_ends(
                caches,
                Progress::Ask(
                    switch_started(directory),
                    CacheRequest::IsFile { path: switch_started(directory).cache() },
                ),
                4,
            );
            let count: nat = (if caches(entities) is Some {
                1nat
            } else {
                0nat
            }) + (if caches(keys) is Some {
                1nat
            } else {
                0nat
            });
            if !takes_wal(caches(entities)) {
                end == CacheOutcome::Err(
                    Fault::WalRejected { path: entities, mode: caches(entities)->0 },
                )
            } else if !takes_wal(caches(keys)) {
                end == CacheOutcome::Err(Fault::WalRejected { path: keys, mode: caches(keys)->0 })
            } else {
                end == CacheOutcome::Ok(Progress::Done(count))
            }
        }),
{
    reveal_with_fuel(switch_ends, 5);
    let entities = path_joined(directory, "cache-entities.sqlite"@);
    let keys = path_joined(directory, "cache-crypto.sqlite"@);
    digests_ignore_case(caches(entities)->0, "wal"@);
    digests_ignore_case(caches(keys)->0, "wal"@);
}

/// Any length of time is an interval between runs, but none at all; a text that is no length of time
/// is refused with the reason.
pub proof fn which_lengths_are_intervals(length: Result<(u64, u32), Seq<char>>)
    ensures
        run_interval(length) is Ok <==> length is Ok && length->Ok_0 != (0u64, 0u32),
        run_interval(length) matches Ok(interval) ==> length->Ok_0 == (
            interval.seconds,
            interval.nanos,
        ),
        run_interval(length) matches Err(fault) ==> match length {
            Ok(_) => fault is ZeroDuration,
            Err(error) => fault == (Fault::BadDuration { error }),
        },
{
}

/// With systemd the service is healthy exactly if its timer is active and its last run did not fail,
/// whatever is reported; with another manager exactly if it is reported well.
pub proof fn when_the_service_is_healthy(well: bool, active: bool, failed: bool)
    ensures
        healthy(InitSystem::Systemd, well, active, failed) <==> active && !failed,
        healthy(InitSystem::Dinit, well, active, failed) <==> well,
        healthy(InitSystem::Openrc, well, active, failed) <==> well,
{
}

/// A service manager that is named is taken. Else systemd, dinit and OpenRC are asked in turn, and the
/// first that answers is taken; if none does there is none.
pub proof fn which_service_manager_is_found(named: InitSystem, answers: Seq<bool>)
    requires
        answers.len() <= 3,
        forall|i: int| 0 <= i < answers.len() - 1 ==> !#[trigger] answers[i],
    ensures
        named != InitSystem::Auto ==> resolution(named, answers) == Ok::<
            ResolutionView,
            Fault<Seq<char>>,
        >(ResolutionView::Found(named)),
        named == InitSystem::Auto ==> {
            let found = resolution(named, answers);
            if answers.len() > 0 && answers.last() {
                found == Ok::<ResolutionView, Fault<Seq<char>>>(
                    ResolutionView::Found(
                        if answers.len() == 1 {
                            InitSystem::Systemd
                        } else if answers.len() == 2 {
                            InitSystem::Dinit
                        } else {
                            InitSystem::Openrc
                        },
                    ),
                )
            } else if answers.len() == 3 {
                found == Err::<ResolutionView, Fault<Seq<char>>>(Fault::NoServiceManager)
            } else {
                found matches Ok(ResolutionView::Probe(probe)) && probe.program == if answers.len()
                    == 0 {
                    "systemctl"@
                } else if answers.len() == 1 {
                    "dinitctl"@
                } else {
                    "rc-status"@
                }
            }
        },
{
    if answers.len() > 1 {
        assert(!answers[0]);
    }
    if answers.len() > 2 {
        assert(!answers[1]);
    }
}

/// The prompt of the client is `proton-drive> `. What comes before it is an output once the prompt stands
/// at the beginning, or behind a line break, and at the end; before that there is none.
pub proof fn what_stands_before_the_prompt(bytes: Seq<u8>)
    ensures
        prompt_bytes().len() == "proton-drive> "@.len(),
        forall|i: int|
            0 <= i < prompt_bytes().len() ==> #[trigger] prompt_bytes()[i] as int
                == "proton-drive> "@[i] as int,
        before_prompt(bytes) matches Some(output) ==> bytes == output + seq![10u8] + prompt_bytes()
            || bytes == prompt_bytes() && output.len() == 0,
{
    reveal_strlit("proton-drive> ");
    let prompt = prompt_bytes();
    let line = seq![10u8] + prompt;
    if line.is_suffix_of(bytes) {
        let at = bytes.len() - line.len();
        assert(bytes.subrange(at, bytes.len() as int) =~= line);
        assert(bytes =~= bytes.take(at) + line);
        assert(bytes.take(at) + seq![10u8] + prompt =~= bytes);
    }
}

/// Where a text begins and ends once the white space around it is passed over.
pub proof fn white_space_around_a_text_is_passed_over(text: Seq<char>) -> (r: (int, int))
    ensures
        0 <= r.0 <= r.1 <= text.len(),
        trimmed(text) == text.subrange(r.0, r.1),
        forall|i: int| 0 <= i < r.0 ==> is_white_space(#[trigger] text[i]),
        forall|i: int| r.1 <= i < text.len() ==> is_white_space(#[trigger] text[i]),
        r.0 < r.1 ==> !is_white_space(text[r.0]) && !is_white_space(text[r.1 - 1]),
{
    let from = blanks_in_front(text);
    let start = trimmed_start(text);
    let to = blanks_behind(start);
    assert forall|i: int| from + to <= i < text.len() implies is_white_space(#[trigger] text[i]) by {
        assert(start[i - from] == text[i]);
    }
    if to > 0 {
        assert(start[0] == text[from]);
        assert(start[to - 1] == text[from + to - 1]);
    }
    assert(trimmed(text) =~= text.subrange(from, from + to));
    (from, from + to)
}

proof fn blanks_in_front(text: Seq<char>) -> (from: int)
    ensures
        0 <= from <= text.len(),
        trimmed_start(text) == text.skip(from),
        forall|i: int| 0 <= i < from ==> is_white_space(#[trigger] text[i]),
        from < text.len() ==> !is_white_space(text[from]),
    decreases text.len(),
{
    if text.len() > 0 && is_white_space(text[0]) {
        let rest = text.drop_first();
        let from = blanks_in_front(rest);
        assert forall|i: int| 0 <= i < from + 1 implies is_white_space(#[trigger] text[i]) by {
            if i > 0 {
                assert(rest[i - 1] == text[i]);
            }
        }
        assert(rest.skip(from) =~= text.skip(from + 1));
        if from < rest.len() {
            assert(rest[from] == text[from + 1]);
        }
        from + 1
    } else {
        assert(text.skip(0) =~= text);
        0
    }
}

proof fn blanks_behind(text: Seq<char>) -> (to: int)
    ensures
        0 <= to <= text.len(),
        trimmed_blank_end(text) == text.take(to),
        forall|i: int| to <= i < text.len() ==> is_white_space(#[trigger] text[i]),
        to > 0 ==> !is_white_space(text[to - 1]),
    decreases text.len(),
{
    if text.len() > 0 && is_white_space(text.last()) {
        let rest = text.drop_last();
        let to = blanks_behind(rest);
        assert forall|i: int| to <= i < text.len() implies is_white_space(#[trigger] text[i]) by {
            if i < rest.len() {
                assert(rest[i] == text[i]);
            }
        }
        assert(rest.take(to) =~= text.take(to));
        if to > 0 {
            assert(rest[to - 1] == text[to - 1]);
        }
        to
    } else {
        assert(text.take(text.len() as int) =~= text);
        text.len() as int
    }
}

} // verus!
