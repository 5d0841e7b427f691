//! Wire messages of the chat protocol: parsing a raw line and writing one.
use vstd::prelude::*;
use vstd::string::StrSliceExecFns;
use vstd::string::StringExecFns;

use crate::error::ProtocolError;
use crate::irc::grammar::{
    after_space, args_part, classify, first_space, head_token, is_control_char, parse,
    parse_args, parse_body, lemma_first_space_bounds, parse_command, prefix_part, serialize, trim_control, trim_end,
    trim_start, PrefixView, WireView,
};

verus! {

/// The sender of a message, as classified from its raw text.
#[derive(Clone, Debug, PartialEq, Eq)]
pub enum Prefix {
    Server(String),
    User(String),
}

impl View for Prefix {
    type V = PrefixView;

    open spec fn view(&self) -> PrefixView {
        match self {
            Prefix::Server(s) => PrefixView::Server(s@),
            Prefix::User(s) => PrefixView::User(s@),
        }
    }
}

pub open spec fn prefix_view(p: Option<Prefix>) -> Option<PrefixView> {
    match p {
        Some(x) => Some(x@),
        None => None,
    }
}

pub open spec fn strings_view(v: Seq<String>) -> Seq<Seq<char>> {
    v.map_values(|s: String| s@)
}

pub open spec fn strs_view(v: Seq<&str>) -> Seq<Seq<char>> {
    v.map_values(|s: &str| s@)
}

/// One line of the protocol: an optional prefix, a command and its arguments.
#[derive(Clone, Debug)]
pub struct Message {
    pub prefix: Option<Prefix>,
    pub command: String,
    pub args: Vec<String>,
}

impl View for Message {
    type V = WireView;

    open spec fn view(&self) -> WireView {
        WireView {
            prefix: prefix_view(self.prefix),
            command: self.command@,
            args: strings_view(self.args@),
        }
    }
}

pub fn chars_of(s: &str) -> (r: Vec<char>)
    ensures
        r@ == s@,
{
    let mut v: Vec<char> = Vec::new();
    for c in it: s.chars()
        invariant
            v@ == it.seq().take(it.index() as int),
    {
        v.push(c);
    }
    v
}

/// Whether `c` is a control character (general category Cc).
pub fn is_control(c: char) -> (r: bool)
    ensures
        r == is_control_char(c),
{
    let u = c as u32;
    u <= 0x1f || (0x7f <= u && u <= 0x9f)
}

pub fn has_char(s: &str, c: char) -> (r: bool)
    ensures
        r == s@.contains(c),
{
    let cs = chars_of(s);
    let mut i: usize = 0;
    while i < cs.len()
        invariant
            i <= cs@.len(),
            cs@ == s@,
            forall|j: int| 0 <= j < i ==> cs@[j] != c,
        decreases cs.len() - i,
    {
        if cs[i] == c {
            return true;
        }
        i += 1;
    }
    false
}

fn substring(s: &str, from: usize, to: usize) -> (r: String)
    requires
        from <= to <= s@.len(),
    ensures
        r@ == s@.subrange(from as int, to as int),
{
    s.substring_char(from, to).to_owned()
}

/// Position of the first space in `cs[from..to]`, or `to`.
pub(crate) fn find_space(cs: &Vec<char>, from: usize, to: usize) -> (r: usize)
    requires
        from <= to <= cs@.len(),
    ensures
        from <= r <= to,
        r - from == first_space(cs@.subrange(from as int, to as int)),
{
    let mut i = from;
    while i < to && cs[i] != ' '
        invariant
            from <= i <= to,
            to <= cs@.len(),
            first_space(cs@.subrange(from as int, to as int)) == (i - from) + first_space(
                cs@.subrange(i as int, to as int),
            ),
        decreases to - i,
    {
        assert(cs@.subrange(i as int, to as int).drop_first() =~= cs@.subrange(
            i + 1,
            to as int,
        ));
        i += 1;
    }
    i
}

/// The bounds of `cs` once control characters are trimmed from both ends.
fn trim_bounds(cs: &Vec<char>) -> (r: (usize, usize))
    ensures
        r.0 <= r.1 <= cs@.len(),
        trim_control(cs@) == cs@.subrange(r.0 as int, r.1 as int),
{
    let n = cs.len();
    let mut lo: usize = 0;
    assert(cs@.skip(0) =~= cs@);
    while lo < n && is_control(cs[lo])
        invariant
            lo <= n,
            n == cs@.len(),
            trim_start(cs@) == trim_start(cs@.skip(lo as int)),
        decreases n - lo,
    {
        assert(cs@.skip(lo as int).drop_first() =~= cs@.skip(lo + 1));
        lo += 1;
    }
    assert(cs@.skip(lo as int) =~= cs@.subrange(lo as int, n as int));
    let mut hi: usize = n;
    while hi > lo && is_control(cs[hi - 1])
        invariant
            lo <= hi <= n,
            n == cs@.len(),
            trim_control(cs@) == trim_end(cs@.subrange(lo as int, hi as int)),
        decreases hi,
    {
        assert(cs@.subrange(lo as int, hi as int).drop_last() =~= cs@.subrange(lo as int, hi - 1));
        hi -= 1;
    }
    (lo, hi)
}

/// The arguments held in `cs[start..hi]`, the text after the command's space.
fn read_args(raw: &str, cs: &Vec<char>, start: usize, hi: usize) -> (args: Vec<String>)
    requires
        raw@ == cs@,
        start <= hi <= cs@.len(),
    ensures
        strings_view(args@) == parse_args(cs@.subrange(start as int, hi as int)),
{
    let ghost target = parse_args(cs@.subrange(start as int, hi as int));
    let mut args: Vec<String> = Vec::new();
    let mut p = start;
    assert(strings_view(args@) + target =~= target);
    loop
        invariant_except_break
            start <= p <= hi,
            hi <= cs@.len(),
            raw@ == cs@,
            strings_view(args@) + parse_args(cs@.subrange(p as int, hi as int)) == target,
        ensures
            strings_view(args@) == target,
        decreases hi - p,
    {
        let ghost a = cs@.subrange(p as int, hi as int);
        let ghost before = strings_view(args@);
        if p < hi && cs[p] == ':' {
            let t = substring(raw, p + 1, hi);
            assert(t@ =~= a.drop_first());
            args.push(t);
            assert(strings_view(args@) =~= before.push(t@));
            assert(before + seq![a.drop_first()] =~= before.push(t@));
            break ;
        }
        let q = find_space(cs, p, hi);
        let t = substring(raw, p, q);
        assert(t@ =~= a.take(first_space(a)));
        args.push(t);
        assert(strings_view(args@) =~= before.push(t@));
        if q < hi {
            assert(a.skip(first_space(a) + 1) =~= cs@.subrange(q + 1, hi as int));
            assert(before + parse_args(a) =~= before.push(t@) + parse_args(
                cs@.subrange(q + 1, hi as int),
            ));
            p = q + 1;
        } else {
            assert(before + parse_args(a) =~= before.push(t@));
            break ;
        }
    }
    args
}

impl Prefix {
    /// Classifies a raw prefix: a server name holds a dot and not both
    /// `!` and `@`; anything else is a user identity.
    pub fn from_raw(raw: String) -> (r: Self)
        ensures
            r@ == classify(raw@),
    {
        let dot = has_char(raw.as_str(), '.');
        let bang = has_char(raw.as_str(), '!');
        let at = has_char(raw.as_str(), '@');
        if dot && !(bang && at) {
            Prefix::Server(raw)
        } else {
            Prefix::User(raw)
        }
    }

    pub fn raw(&self) -> (r: &str)
        ensures
            r@ == self@.raw(),
    {
        match self {
            Prefix::Server(x) => x.as_str(),
            Prefix::User(x) => x.as_str(),
        }
    }
}

impl Message {
    pub fn new(prefix: Option<Prefix>, command: &str, args: Vec<&str>) -> (r: Self)
        ensures
            r@ == (WireView {
                prefix: prefix_view(prefix),
                command: command@,
                args: strs_view(args@),
            }),
    {
        let mut owned: Vec<String> = Vec::new();
        let mut i: usize = 0;
        while i < args.len()
            invariant
                i <= args@.len(),
                strings_view(owned@) == strs_view(args@.take(i as int)),
            decreases args.len() - i,
        {
            let a: &str = args[i];
            let t = a.to_owned();
            let ghost before = strings_view(owned@);
            owned.push(t);
            assert(args@.take(i + 1) =~= args@.take(i as int).push(a));
            assert(strings_view(owned@) =~= before.push(t@));
            assert(strs_view(args@.take(i + 1)) =~= strs_view(args@.take(i as int)).push(a@));
            i += 1;
        }
        assert(args@.take(i as int) =~= args@);
        Message { prefix, command: command.to_owned(), args: owned }
    }

    /// Reads one raw line: control characters are trimmed from both ends,
    /// a leading `:` token is the prefix, the next token the command, and
    /// the rest the arguments, a token opening with `:` taking the rest of
    /// the line. A line without a command is a protocol error.
    pub fn from_raw(raw: String) -> (r: Result<Self, ProtocolError>)
        ensures
            match r {
                Ok(m) => parse(raw@) == Some(m@),
                Err(e) => parse(raw@) is None && e == ProtocolError::MissingCommand,
            },
    {
        let cs = chars_of(raw.as_str());
        let (lo, hi) = trim_bounds(&cs);
        let ghost body = cs@.subrange(lo as int, hi as int);
        let mut pos = lo;
        let mut prefix: Option<Prefix> = None;
        if lo < hi && cs[lo] == ':' {
            let sp = find_space(&cs, lo, hi);
            proof {
                lemma_first_space_bounds(body.drop_first());
            }
            assert(body.take(first_space(body)) =~= cs@.subrange(lo as int, sp as int));
            if sp == hi {
                return Err(ProtocolError::MissingCommand);
            }
            let p = Prefix::from_raw(substring(raw.as_str(), lo + 1, sp));
            assert(head_token(body).drop_first() =~= cs@.subrange(lo + 1, sp as int));
            assert(body.skip(first_space(body) + 1) =~= cs@.subrange(sp + 1, hi as int));
            prefix = Some(p);
            pos = sp + 1;
        } else {
            assert(cs@.subrange(pos as int, hi as int) =~= body);
        }
        let ghost r = cs@.subrange(pos as int, hi as int);
        assert(parse_body(body) == parse_command(r, prefix_view(prefix)));
        let cend = find_space(&cs, pos, hi);
        assert(head_token(r) =~= cs@.subrange(pos as int, cend as int));
        if cend == pos {
            return Err(ProtocolError::MissingCommand);
        }
        let command = substring(raw.as_str(), pos, cend);
        let args = if cend < hi {
            assert(after_space(r) == Some(cs@.subrange(cend + 1, hi as int)));
            read_args(raw.as_str(), &cs, cend + 1, hi)
        } else {
            assert(after_space(r) is None);
            let none: Vec<String> = Vec::new();
            assert(strings_view(none@) =~= Seq::<Seq<char>>::empty());
            none
        };
        Ok(Message { prefix, command, args })
    }

    /// Writes the message as one CRLF-terminated line (see
    /// `grammar::serialize`).
    pub fn raw(&self) -> (r: String)
        ensures
            r@ == serialize(self@),
    {
        let ghost av = strings_view(self.args@);
        let mut out = String::new();
        proof {
            reveal_strlit(":");
            reveal_strlit(" ");
            reveal_strlit(" :");
            reveal_strlit("\r\n");
        }
        match &self.prefix {
            Some(p) => {
                out.append(":");
                out.append(p.raw());
                out.append(" ");
            },
            None => {},
        }
        out.append(self.command.as_str());
        assert(out@ =~= prefix_part(self@.prefix) + self.command@);
        let ghost head = out@;
        let mut i: usize = 0;
        assert(av.skip(0) =~= av);
        loop
            invariant_except_break
                i <= self.args@.len(),
                av == strings_view(self.args@),
                out@ + args_part(av.skip(i as int)) == head + args_part(av),
            ensures
                out@ == head + args_part(av),
            decreases self.args.len() - i,
        {
            if i == self.args.len() {
                assert(av.skip(i as int) =~= Seq::<Seq<char>>::empty());
                assert(out@ =~= out@ + args_part(av.skip(i as int)));
                break ;
            }
            let arg = self.args[i].as_str();
            let ghost before = out@;
            proof {
                reveal_strlit(" ");
                reveal_strlit(" :");
            }
            assert(av.skip(i as int)[0] == arg@);
            if has_char(arg, ' ') {
                out.append(" :");
                out.append(arg);
                assert(out@ =~= before + seq![' ', ':'] + arg@);
                assert(args_part(av.skip(i as int)) =~= seq![' ', ':'] + arg@);
                assert(out@ =~= before + args_part(av.skip(i as int)));
                break ;
            }
            out.append(" ");
            out.append(arg);
            assert(out@ =~= before + seq![' '] + arg@);
            assert(av.skip(i as int).drop_first() =~= av.skip(i + 1));
            assert(args_part(av.skip(i as int)) =~= seq![' '] + arg@ + args_part(av.skip(i + 1)));
            assert(out@ + args_part(av.skip(i + 1)) =~= before + args_part(av.skip(i as int)));
            i += 1;
        }
        out.append("\r\n");
        out
    }
}

} // verus!
