//! The line grammar of the chat protocol, stated over character sequences.
//!
//! A line is `[":" prefix " "] command (" " arg)* [" :" trailing] CRLF`.
//! Everything here is specification: the executable codec in
//! `irc::message` is proved against these functions.
use vstd::prelude::*;

verus! {

/// Abstract value of a message prefix: who the message comes from.
pub enum PrefixView {
    Server(Seq<char>),
    User(Seq<char>),
}

impl PrefixView {
    pub open spec fn raw(self) -> Seq<char> {
        match self {
            PrefixView::Server(s) => s,
            PrefixView::User(s) => s,
        }
    }
}

/// Abstract value of a wire message.
pub struct WireView {
    pub prefix: Option<PrefixView>,
    pub command: Seq<char>,
    pub args: Seq<Seq<char>>,
}

/// A raw prefix names a server when it holds a dot and does not hold
/// both `!` and `@` (a `nick!user@host` identity); otherwise a user.
pub open spec fn classify(raw: Seq<char>) -> PrefixView {
    if raw.contains('.') && !(raw.contains('!') && raw.contains('@')) {
        PrefixView::Server(raw)
    } else {
        PrefixView::User(raw)
    }
}

/// Unicode general category Cc: the C0 and C1 control codes and DEL.
pub open spec fn is_control_char(c: char) -> bool {
    (c as u32) <= 0x1f || (0x7f <= (c as u32) && (c as u32) <= 0x9f)
}

pub open spec fn no_control(s: Seq<char>) -> bool {
    forall|i: int| 0 <= i < s.len() ==> !is_control_char(#[trigger] s[i])
}

/// A prefix or a command: no spaces, no control characters.
pub open spec fn is_token(s: Seq<char>) -> bool {
    !s.contains(' ') && no_control(s)
}

pub open spec fn starts_with_colon(s: Seq<char>) -> bool {
    s.len() > 0 && s[0] == ':'
}

pub open spec fn trim_start(s: Seq<char>) -> Seq<char>
    decreases s.len(),
{
    if s.len() > 0 && is_control_char(s[0]) {
        trim_start(s.drop_first())
    } else {
        s
    }
}

pub open spec fn trim_end(s: Seq<char>) -> Seq<char>
    decreases s.len(),
{
    if s.len() > 0 && is_control_char(s.last()) {
        trim_end(s.drop_last())
    } else {
        s
    }
}

/// The line with control characters removed from both ends.
pub open spec fn trim_control(s: Seq<char>) -> Seq<char> {
    trim_end(trim_start(s))
}

/// Index of the first space in `s`, or `s.len()` when there is none.
pub open spec fn first_space(s: Seq<char>) -> int
    decreases s.len(),
{
    if s.len() == 0 || s[0] == ' ' {
        0
    } else {
        1 + first_space(s.drop_first())
    }
}

/// The characters of `s` before its first space.
pub open spec fn head_token(s: Seq<char>) -> Seq<char> {
    s.take(first_space(s))
}

/// What follows the first space of `s`, if `s` has a space.
pub open spec fn after_space(s: Seq<char>) -> Option<Seq<char>> {
    if first_space(s) < s.len() {
        Some(s.skip(first_space(s) + 1))
    } else {
        None
    }
}

/// The arguments read from the text that follows a space: tokens split on
/// single spaces, until a token that starts with `:`, which opens the
/// trailing argument and takes the rest of the line.
pub open spec fn parse_args(a: Seq<char>) -> Seq<Seq<char>>
    decreases a.len(),
{
    if starts_with_colon(a) {
        seq![a.drop_first()]
    } else if 0 <= first_space(a) < a.len() {
        seq![a.take(first_space(a))] + parse_args(a.skip(first_space(a) + 1))
    } else {
        seq![a]
    }
}

/// Command and arguments from the text after the prefix; `None` when there
/// is no command token or it is empty.
pub open spec fn parse_command(r: Seq<char>, prefix: Option<PrefixView>) -> Option<WireView> {
    let command = head_token(r);
    if command.len() == 0 {
        None
    } else {
        Some(
            WireView {
                prefix,
                command,
                args: match after_space(r) {
                    Some(a) => parse_args(a),
                    None => Seq::empty(),
                },
            },
        )
    }
}

/// A line with its control characters already trimmed.
pub open spec fn parse_body(body: Seq<char>) -> Option<WireView> {
    if starts_with_colon(body) {
        match after_space(body) {
            Some(r) => parse_command(r, Some(classify(head_token(body).drop_first()))),
            None => None,
        }
    } else {
        parse_command(body, None)
    }
}

/// The message a raw line holds; `None` when it holds no command.
pub open spec fn parse(line: Seq<char>) -> Option<WireView> {
    parse_body(trim_control(line))
}

pub open spec fn prefix_part(prefix: Option<PrefixView>) -> Seq<char> {
    match prefix {
        Some(p) => seq![':'] + p.raw() + seq![' '],
        None => Seq::empty(),
    }
}

/// The arguments as written on a line: each one after a space; the first
/// one that holds a space is written with a leading `:` and ends the line
/// (arguments after it cannot be written). An empty last argument stays a
/// bare empty token.
pub open spec fn args_part(args: Seq<Seq<char>>) -> Seq<char>
    decreases args.len(),
{
    if args.len() == 0 {
        Seq::empty()
    } else if args[0].contains(' ') {
        seq![' ', ':'] + args[0]
    } else {
        seq![' '] + args[0] + args_part(args.drop_first())
    }
}

/// The line that a message is written as, with its CRLF terminator.
pub open spec fn serialize(m: WireView) -> Seq<char> {
    prefix_part(m.prefix) + m.command + args_part(m.args) + seq!['\r', '\n']
}

/// Arguments that read back as written: no control characters, a space only
/// in the last one, and a leading `:` only where the writer adds its own.
pub open spec fn args_fit_wire(args: Seq<Seq<char>>) -> bool {
    &&& forall|i: int| 0 <= i < args.len() ==> no_control(#[trigger] args[i])
    &&& forall|i: int| 0 <= i < args.len() - 1 ==> !(#[trigger] args[i]).contains(' ')
    &&& forall|i: int|
        0 <= i < args.len() && starts_with_colon(#[trigger] args[i]) ==> i == args.len() - 1
            && args[i].contains(' ')
}

/// A message whose prefix and command are tokens, whose prefix is the one
/// its raw text classifies as, and whose command cannot be read as a prefix.
pub open spec fn head_fits_wire(m: WireView) -> bool {
    &&& m.command.len() > 0
    &&& is_token(m.command)
    &&& match m.prefix {
        Some(p) => is_token(p.raw()) && classify(p.raw()) == p,
        None => m.command[0] != ':',
    }
}

pub proof fn lemma_first_space_bounds(s: Seq<char>)
    ensures
        0 <= first_space(s) <= s.len(),
    decreases s.len(),
{
    if s.len() > 0 && s[0] != ' ' {
        lemma_first_space_bounds(s.drop_first());
    }
}

proof fn lemma_first_space_of_token(a: Seq<char>, b: Seq<char>)
    requires
        !a.contains(' '),
    ensures
        first_space(a + seq![' '] + b) == a.len(),
        first_space(a) == a.len(),
    decreases a.len(),
{
    if a.len() > 0 {
        assert(a[0] != ' ');
        assert((a + seq![' '] + b).drop_first() =~= a.drop_first() + seq![' '] + b);
        assert(!a.drop_first().contains(' ')) by {
            if a.drop_first().contains(' ') {
                let i = choose|i: int| 0 <= i < a.drop_first().len() && a.drop_first()[i] == ' ';
                assert(a[i + 1] == ' ');
            }
        }
        lemma_first_space_of_token(a.drop_first(), b);
    } else {
        assert((a + seq![' '] + b)[0] == ' ');
    }
}

proof fn lemma_args_part_no_control(args: Seq<Seq<char>>)
    requires
        forall|i: int| 0 <= i < args.len() ==> no_control(#[trigger] args[i]),
    ensures
        no_control(args_part(args)),
        args.len() > 0 ==> args_part(args).len() > 0 && args_part(args)[0] == ' ',
    decreases args.len(),
{
    if args.len() > 0 {
        assert(no_control(args[0]));
        if !args[0].contains(' ') {
            let rest = args.drop_first();
            assert forall|i: int| 0 <= i < rest.len() implies no_control(#[trigger] rest[i]) by {
                assert(rest[i] == args[i + 1]);
            }
            lemma_args_part_no_control(rest);
            let s = seq![' '] + args[0] + args_part(rest);
            assert forall|i: int| 0 <= i < s.len() implies !is_control_char(#[trigger] s[i]) by {
                if 1 <= i < 1 + args[0].len() {
                    assert(s[i] == args[0][i - 1]);
                } else if i >= 1 + args[0].len() {
                    assert(s[i] == args_part(rest)[i - 1 - args[0].len()]);
                }
            }
        } else {
            let s = seq![' ', ':'] + args[0];
            assert forall|i: int| 0 <= i < s.len() implies !is_control_char(#[trigger] s[i]) by {
                if i >= 2 {
                    assert(s[i] == args[0][i - 2]);
                }
            }
        }
    }
}

proof fn lemma_parse_args_part(args: Seq<Seq<char>>)
    requires
        args.len() > 0,
        args_fit_wire(args),
    ensures
        args_part(args).len() > 0,
        parse_args(args_part(args).drop_first()) == args,
    decreases args.len(),
{
    let a0 = args[0];
    if a0.contains(' ') {
        let x = args_part(args).drop_first();
        assert(x =~= seq![':'] + a0);
        assert(x.drop_first() =~= a0);
        assert(args.len() == 1);
        assert(parse_args(x) =~= args);
    } else {
        let rest = args.drop_first();
        let x = args_part(args).drop_first();
        assert(x =~= a0 + args_part(rest));
        assert(!starts_with_colon(a0) || a0.contains(' '));
        if rest.len() == 0 {
            assert(args_part(rest) =~= Seq::<char>::empty());
            assert(x =~= a0);
            lemma_first_space_of_token(a0, Seq::empty());
            assert(!starts_with_colon(x));
            assert(parse_args(x) =~= args);
        } else {
            assert(rest[0] == args[1]);
            assert forall|i: int| 0 <= i < rest.len() implies no_control(#[trigger] rest[i]) by {
                assert(rest[i] == args[i + 1]);
            }
            assert forall|i: int| 0 <= i < rest.len() - 1 implies !(#[trigger] rest[i]).contains(
                ' ',
            ) by {
                assert(rest[i] == args[i + 1]);
            }
            assert forall|i: int|
                0 <= i < rest.len() && starts_with_colon(#[trigger] rest[i]) implies i == rest.len()
                - 1 && rest[i].contains(' ') by {
                assert(rest[i] == args[i + 1]);
            }
            lemma_parse_args_part(rest);
            lemma_args_part_no_control(rest);
            let y = args_part(rest).drop_first();
            assert(args_part(rest) =~= seq![' '] + y);
            assert(x =~= a0 + seq![' '] + y);
            lemma_first_space_of_token(a0, y);
            if a0.len() == 0 {
                assert(x[0] == ' ');
            } else {
                assert(x[0] == a0[0]);
            }
            assert(!starts_with_colon(x));
            assert(x.take(first_space(x)) =~= a0);
            assert(x.skip(first_space(x) + 1) =~= y);
            assert(parse_args(x) =~= seq![a0] + rest);
            assert(seq![a0] + rest =~= args);
        }
    }
}

proof fn lemma_trim_clean(body: Seq<char>)
    requires
        body.len() > 0,
        no_control(body),
    ensures
        trim_control(body + seq!['\r', '\n']) == body,
{
    let line = body + seq!['\r', '\n'];
    assert(line[0] == body[0]);
    assert(trim_start(line) == line);
    assert(line.drop_last() =~= body + seq!['\r']);
    assert((body + seq!['\r']).drop_last() =~= body);
    assert(is_control_char('\n'));
    assert(is_control_char('\r'));
    assert(trim_end(body + seq!['\r']) == trim_end(body));
    assert(trim_end(line) == trim_end(body + seq!['\r']));
    assert(body.last() == body[body.len() - 1]);
}

/// Reading back a written message gives the same message, for every message
/// whose arguments hold no control characters and a space at most in the
/// last one (and whose prefix and command are tokens, the prefix classified
/// as its raw text reads, and no argument opens with a `:` the writer would
/// not add).
pub proof fn lemma_parse_serialize(m: WireView)
    requires
        head_fits_wire(m),
        args_fit_wire(m.args),
    ensures
        parse(serialize(m)) == Some(m),
{
    let cmd = m.command;
    let ap = args_part(m.args);
    lemma_args_part_no_control(m.args);
    // The text after the prefix reads as the command and the arguments.
    let r = cmd + ap;
    assert(head_token(r) =~= cmd && parse_command(r, m.prefix) == Some(m)) by {
        if m.args.len() == 0 {
            assert(ap =~= Seq::<char>::empty());
            assert(r =~= cmd);
            lemma_first_space_of_token(cmd, Seq::empty());
            assert(after_space(r) is None);
            assert(head_token(r) =~= cmd);
            assert(m.args =~= Seq::<Seq<char>>::empty());
        } else {
            let y = ap.drop_first();
            assert(ap =~= seq![' '] + y);
            assert(r =~= cmd + seq![' '] + y);
            lemma_first_space_of_token(cmd, y);
            assert(r.skip(cmd.len() + 1int) =~= y);
            assert(after_space(r) == Some(y));
            assert(head_token(r) =~= cmd);
            lemma_parse_args_part(m.args);
            assert(parse_args(y) == m.args);
        }
    }
    let body = prefix_part(m.prefix) + r;
    assert(no_control(body)) by {
        assert forall|i: int| 0 <= i < body.len() implies !is_control_char(#[trigger] body[i]) by {
            let pp = prefix_part(m.prefix);
            if i < pp.len() {
                if let Some(p) = m.prefix {
                    if 1 <= i < 1 + p.raw().len() {
                        assert(body[i] == p.raw()[i - 1]);
                    }
                }
            } else if i < pp.len() + cmd.len() {
                assert(body[i] == cmd[i - pp.len()]);
            } else {
                assert(body[i] == ap[i - pp.len() - cmd.len()]);
            }
        }
    }
    assert(serialize(m) =~= body + seq!['\r', '\n']);
    lemma_trim_clean(body);
    match m.prefix {
        Some(p) => {
            let t = seq![':'] + p.raw();
            assert(body =~= t + seq![' '] + r);
            assert(!t.contains(' ')) by {
                if t.contains(' ') {
                    let i = choose|i: int| 0 <= i < t.len() && t[i] == ' ';
                    assert(p.raw()[i - 1] == ' ');
                }
            }
            lemma_first_space_of_token(t, r);
            assert(starts_with_colon(body));
            assert(head_token(body).drop_first() =~= p.raw());
            assert(body.skip(t.len() + 1int) =~= r);
        },
        None => {
            assert(body =~= r);
            assert(body[0] == cmd[0]);
        },
    }
}

} // verus!
