//! Parsing of an SCPI message received on the line.
//!
//! A message is a line of text that may hold several commands separated by
//! semicolons:
//!
//! ```text
//! *RST;:CONF:VOLT:DC 10;:SENS:VOLT:DC:NPLC 1;:READ?
//! ```
//!
//! A chained command that does **not** start with a colon is read relative to
//! the level of the previous command: `VOLT:DC 10;RANG 100` means `VOLT:DC 10`
//! followed by `VOLT:RANG 100`.
use vstd::prelude::*;
use crate::error::{ErrorCode, ScpiError, ScpiErrorView};
use crate::pattern::{split_nonempty, split_vec, views};
use crate::text::{
    chars_of, eq_chars, is_ascii_digit, is_ascii_lower, is_space, is_space_char, slice_vec, starts_with, string_from, upper,
    upper_vec,
};

verus! {

/// Leading white space removed (`str::trim_start`).
pub open spec fn trim_start(s: Seq<char>) -> Seq<char>
    decreases s.len(),
{
    if s.len() > 0 && is_space(s[0]) {
        trim_start(s.drop_first())
    } else {
        s
    }
}

/// Trailing white space removed (`str::trim_end`).
pub open spec fn trim_end(s: Seq<char>) -> Seq<char>
    decreases s.len(),
{
    if s.len() > 0 && is_space(s.last()) {
        trim_end(s.drop_last())
    } else {
        s
    }
}

/// White space removed at both ends (`str::trim`).
pub open spec fn trim(s: Seq<char>) -> Seq<char> {
    trim_end(trim_start(s))
}

/// The position of the first white space character, or the length when
/// there is none.
pub open spec fn first_space(s: Seq<char>) -> nat
    decreases s.len(),
{
    if s.len() == 0 {
        0
    } else if is_space(s[0]) {
        0
    } else {
        1 + first_space(s.drop_first())
    }
}

/// Trailing `c` characters removed (`str::trim_end_matches`).
pub open spec fn strip_trailing(s: Seq<char>, c: char) -> Seq<char>
    decreases s.len(),
{
    if s.len() > 0 && s.last() == c {
        strip_trailing(s.drop_last(), c)
    } else {
        s
    }
}

/// The state of the quote-aware splitter after a prefix: the pieces closed,
/// the piece being read and the quote currently open, if any.
pub struct SplitState {
    pub done: Seq<Seq<char>>,
    pub cur: Seq<char>,
    pub quote: Option<char>,
}

/// One character of the quote-aware splitter. A separator inside single or
/// double quotes does not split.
pub open spec fn split_step(st: SplitState, c: char, sep: char) -> SplitState {
    match st.quote {
        Some(q) => SplitState {
            cur: st.cur.push(c),
            quote: if c == q { None } else { Some(q) },
            ..st
        },
        None => if c == '"' || c == '\'' {
            SplitState { cur: st.cur.push(c), quote: Some(c), ..st }
        } else if c == sep {
            SplitState { done: st.done.push(st.cur), cur: Seq::empty(), quote: None }
        } else {
            SplitState { cur: st.cur.push(c), ..st }
        },
    }
}

pub open spec fn split_top_run(s: Seq<char>, sep: char) -> SplitState
    decreases s.len(),
{
    if s.len() == 0 {
        SplitState { done: Seq::empty(), cur: Seq::empty(), quote: None }
    } else {
        split_step(split_top_run(s.drop_last(), sep), s.last(), sep)
    }
}

/// The pieces of `s` between separators that stand outside quotes, empty
/// pieces included.
pub open spec fn split_top(s: Seq<char>, sep: char) -> Seq<Seq<char>> {
    let st = split_top_run(s, sep);
    st.done.push(st.cur)
}

/// The mnemonics of a header joined by colons.
pub open spec fn join_colon(parts: Seq<Seq<char>>) -> Seq<char>
    decreases parts.len(),
{
    if parts.len() == 0 {
        Seq::empty()
    } else if parts.len() == 1 {
        parts[0]
    } else {
        join_colon(parts.drop_last()) + seq![':'] + parts.last()
    }
}

/// All the mnemonics of a header but the last, in upper case: the level of
/// the tree at which the chained commands that follow are read.
pub open spec fn levels(header: Seq<char>) -> Seq<Seq<char>> {
    let parts = split_nonempty(header, ':');
    if parts.len() == 0 {
        Seq::empty()
    } else {
        parts.drop_last().map_values(|p: Seq<char>| upper(p))
    }
}

/// The abstract content of a command.
pub struct CommandView {
    pub header: Seq<char>,
    pub query: bool,
    pub args: Seq<Seq<char>>,
}

/// The outcome of one piece of a message: `None` for a blank piece,
/// `Some(Err(piece))` for a piece without header, or the command and the new
/// tree level.
pub open spec fn parse_piece(ctx: Seq<Seq<char>>, raw: Seq<char>) -> Option<
    Result<(CommandView, Seq<Seq<char>>), Seq<char>>,
> {
    let t = trim(raw);
    if t.len() == 0 {
        None
    } else {
        let i = first_space(t) as int;
        let head = t.take(i);
        let args_raw = trim(t.skip(i));
        let query = head.len() > 0 && head.last() == '?';
        let cab = strip_trailing(head, '?');
        if cab.len() == 0 {
            Some(Err(t))
        } else {
            let (header, next) = if cab[0] == '*' {
                (upper(cab), ctx)
            } else if cab[0] == ':' {
                (upper(cab.drop_first()), levels(cab.drop_first()))
            } else if ctx.len() == 0 {
                (upper(cab), levels(cab))
            } else {
                let full = upper(join_colon(ctx) + seq![':'] + cab);
                (full, levels(full))
            };
            let args = if args_raw.len() == 0 {
                Seq::empty()
            } else {
                split_top(args_raw, ',').map_values(|a: Seq<char>| trim(a))
            };
            Some(Ok((CommandView { header, query, args }, next)))
        }
    }
}

/// The commands of the first pieces of a message and the tree level they
/// leave, or the syntax error of the first piece without header.
pub open spec fn parse_pieces(pieces: Seq<Seq<char>>) -> Result<(Seq<CommandView>, Seq<Seq<char>>), ScpiErrorView>
    decreases pieces.len(),
{
    if pieces.len() == 0 {
        Ok((Seq::empty(), Seq::empty()))
    } else {
        match parse_pieces(pieces.drop_last()) {
            Err(e) => Err(e),
            Ok((cmds, ctx)) => match parse_piece(ctx, pieces.last()) {
                None => Ok((cmds, ctx)),
                Some(Err(t)) => Err(ScpiErrorView { code: ErrorCode::SyntaxError, detail: Some(t) }),
                Some(Ok((c, next))) => Ok((cmds.push(c), next)),
            },
        }
    }
}

/// The commands of a message, or the syntax error that stops it.
pub open spec fn parse_message_spec(line: Seq<char>) -> Result<Seq<CommandView>, ScpiErrorView> {
    match parse_pieces(split_top(line, ';')) {
        Ok((cmds, _)) => Ok(cmds),
        Err(e) => Err(e),
    }
}

/// Removes white space at both ends.
pub(crate) fn trim_vec(v: &Vec<char>) -> (r: Vec<char>)
    ensures
        r@ == trim(v@),
{
    let mut i: usize = 0;
    assert(v@.skip(0) == v@);
    while i < v.len() && is_space_char(v[i])
        invariant
            i <= v.len(),
            trim_start(v@) == trim_start(v@.skip(i as int)),
        decreases v.len() - i,
    {
        assert(v@.skip(i as int).drop_first() == v@.skip(i + 1));
        i += 1;
    }
    assert(trim_start(v@.skip(i as int)) == v@.skip(i as int));
    let mut j: usize = v.len();
    assert(v@.skip(i as int) == v@.subrange(i as int, j as int));
    while j > i && is_space_char(v[j - 1])
        invariant
            i <= j <= v.len(),
            trim(v@) == trim_end(v@.subrange(i as int, j as int)),
        decreases j - i,
    {
        assert(v@.subrange(i as int, j as int).drop_last() == v@.subrange(i as int, j - 1));
        j -= 1;
    }
    slice_vec(v, i, j)
}

/// The position of the first white space character, or the length.
fn first_space_vec(v: &Vec<char>) -> (r: usize)
    ensures
        r == first_space(v@),
        r <= v.len(),
{
    let mut i: usize = 0;
    assert(v@.skip(0) == v@);
    while i < v.len() && !is_space_char(v[i])
        invariant
            i <= v.len(),
            first_space(v@) == i + first_space(v@.skip(i as int)),
        decreases v.len() - i,
    {
        assert(v@.skip(i as int).drop_first() == v@.skip(i + 1));
        i += 1;
    }
    i
}

/// Splits at the separators that stand outside quotes.
fn split_top_level(s: &Vec<char>, sep: char) -> (r: Vec<Vec<char>>)
    ensures
        views(r@) == split_top(s@, sep),
{
    let mut done: Vec<Vec<char>> = Vec::new();
    let mut cur: Vec<char> = Vec::new();
    let mut quote: Option<char> = None;
    let mut i: usize = 0;
    assert(s@.take(0) == Seq::<char>::empty());
    assert(views(done@) == Seq::<Seq<char>>::empty());
    while i < s.len()
        invariant
            i <= s.len(),
            split_top_run(s@.take(i as int), sep) == (SplitState { done: views(done@), cur: cur@, quote }),
        decreases s.len() - i,
    {
        let c = s[i];
        assert(s@.take(i + 1).drop_last() == s@.take(i as int));
        match quote {
            Some(q) => {
                cur.push(c);
                if c == q {
                    quote = None;
                }
            },
            None => {
                if c == '"' || c == '\'' {
                    cur.push(c);
                    quote = Some(c);
                } else if c == sep {
                    let ghost d = views(done@);
                    done.push(cur);
                    assert(views(done@) =~= d.push(cur@));
                    cur = Vec::new();
                } else {
                    cur.push(c);
                }
            },
        }
        i += 1;
    }
    assert(s@.take(s.len() as int) == s@);
    let ghost d = views(done@);
    done.push(cur);
    assert(views(done@) =~= d.push(cur@));
    done
}

/// Removes every trailing `c`.
fn strip_trailing_vec(v: &Vec<char>, c: char) -> (r: Vec<char>)
    ensures
        r@ == strip_trailing(v@, c),
{
    let mut j: usize = v.len();
    assert(v@.take(j as int) == v@);
    while j > 0 && v[j - 1] == c
        invariant
            j <= v.len(),
            strip_trailing(v@, c) == strip_trailing(v@.take(j as int), c),
        decreases j,
    {
        assert(v@.take(j as int).drop_last() == v@.take(j - 1));
        j -= 1;
    }
    slice_vec(v, 0, j)
}

/// Joins the mnemonics with colons.
fn join_colon_vec(parts: &Vec<Vec<char>>) -> (r: Vec<char>)
    ensures
        r@ == join_colon(views(parts@)),
{
    let mut out: Vec<char> = Vec::new();
    let mut i: usize = 0;
    while i < parts.len()
        invariant
            i <= parts.len(),
            out@ == join_colon(views(parts@).take(i as int)),
        decreases parts.len() - i,
    {
        let ghost prev = views(parts@).take(i as int);
        assert(views(parts@).take(i + 1).drop_last() == prev);
        assert(views(parts@).take(i + 1).last() == parts@[i as int]@);
        if i > 0 {
            out.push(':');
        }
        let p = &parts[i];
        let mut k: usize = 0;
        let ghost base = out@;
        while k < p.len()
            invariant
                k <= p.len(),
                out@ == base + p@.take(k as int),
            decreases p.len() - k,
        {
            out.push(p[k]);
            assert(p@.take(k + 1) == p@.take(k as int).push(p@[k as int]));
            k += 1;
        }
        assert(p@.take(p.len() as int) == p@);
        assert(i == 0 ==> views(parts@).take(i + 1) =~= seq![p@]);
        i += 1;
    }
    assert(views(parts@).take(parts.len() as int) == views(parts@));
    out
}

/// All the mnemonics of a header but the last, in upper case.
fn niveles_superiores(header: &Vec<char>) -> (r: Vec<Vec<char>>)
    ensures
        views(r@) == levels(header@),
{
    let parts = split_vec(header, ':');
    let mut out: Vec<Vec<char>> = Vec::new();
    if parts.len() == 0 {
        assert(views(out@) =~= Seq::<Seq<char>>::empty());
        return out;
    }
    let n = parts.len() - 1;
    let mut i: usize = 0;
    while i < n
        invariant
            n + 1 == parts.len(),
            i <= n,
            views(parts@) == split_nonempty(header@, ':'),
            views(out@) == views(parts@).take(i as int).map_values(|p: Seq<char>| upper(p)),
        decreases n - i,
    {
        let u = upper_vec(&parts[i]);
        let ghost before = views(out@);
        out.push(u);
        assert(views(out@) =~= before.push(u@));
        assert(views(parts@).take(i + 1) =~= views(parts@).take(i as int).push(parts@[i as int]@));
        i += 1;
    }
    assert(views(parts@).take(n as int) =~= views(parts@).drop_last());
    out
}

/// A command split from the message and ready to dispatch.
#[derive(Debug, Clone, PartialEq, Eq)]
pub struct Command {
    /// Absolute header, without leading colon and in upper case.
    pub header: String,
    /// Whether it ends in `?` and so expects an answer.
    pub query: bool,
    /// The arguments, split at the commas and trimmed.
    pub args: Vec<String>,
}

/// The character sequences held by a vector of strings.
pub open spec fn string_views(v: Seq<String>) -> Seq<Seq<char>> {
    v.map_values(|s: String| s@)
}

impl View for Command {
    type V = CommandView;

    open spec fn view(&self) -> CommandView {
        CommandView { header: self.header@, query: self.query, args: string_views(self.args@) }
    }
}

/// Strings holding the given character vectors.
fn strings_from(v: &Vec<Vec<char>>) -> (r: Vec<String>)
    ensures
        string_views(r@) == views(v@),
{
    let mut out: Vec<String> = Vec::new();
    let mut i: usize = 0;
    while i < v.len()
        invariant
            i <= v.len(),
            string_views(out@) == views(v@).take(i as int),
        decreases v.len() - i,
    {
        let s = string_from(&v[i]);
        let ghost before = string_views(out@);
        out.push(s);
        assert(string_views(out@) =~= before.push(s@));
        assert(views(v@).take(i + 1) =~= views(v@).take(i as int).push(v@[i as int]@));
        i += 1;
    }
    assert(views(v@).take(v.len() as int) =~= views(v@));
    out
}

/// One piece of a message: see [`parse_piece`].
fn parse_piece_exec(ctx: &mut Vec<Vec<char>>, raw: &Vec<char>) -> (r: Option<Result<Command, Vec<char>>>)
    ensures
        match parse_piece(views(old(ctx)@), raw@) {
            None => r is None && views(final(ctx)@) == views(old(ctx)@),
            Some(Err(t)) => r is Some && r.unwrap() is Err && r.unwrap()->Err_0@ == t,
            Some(Ok((c, next))) => r is Some && r.unwrap() is Ok && r.unwrap()->Ok_0@ == c
                && views(final(ctx)@) == next,
        },
{
    let ghost ctx0 = views(ctx@);
    let t = trim_vec(raw);
    if t.len() == 0 {
        return None;
    }
    let i = first_space_vec(&t);
    let head = slice_vec(&t, 0, i);
    let rest = slice_vec(&t, i, t.len());
    assert(head@ == t@.take(i as int));
    assert(rest@ == t@.skip(i as int));
    let args_raw = trim_vec(&rest);
    let query = head.len() > 0 && head[head.len() - 1] == '?';
    let cab = strip_trailing_vec(&head, '?');
    if cab.len() == 0 {
        return Some(Err(t));
    }
    let header: Vec<char>;
    if cab[0] == '*' {
        header = upper_vec(&cab);
        assert(views(ctx@) == ctx0);
    } else if cab[0] == ':' {
        let abs = slice_vec(&cab, 1, cab.len());
        assert(abs@ == cab@.drop_first());
        *ctx = niveles_superiores(&abs);
        header = upper_vec(&abs);
    } else if ctx.len() == 0 {
        *ctx = niveles_superiores(&cab);
        header = upper_vec(&cab);
    } else {
        let mut full = join_colon_vec(ctx);
        full.push(':');
        let mut k: usize = 0;
        let ghost base = full@;
        while k < cab.len()
            invariant
                k <= cab.len(),
                full@ == base + cab@.take(k as int),
            decreases cab.len() - k,
        {
            full.push(cab[k]);
            assert(cab@.take(k + 1) == cab@.take(k as int).push(cab@[k as int]));
            k += 1;
        }
        assert(cab@.take(cab.len() as int) == cab@);
        assert(full@ == join_colon(ctx0) + seq![':'] + cab@);
        let up = upper_vec(&full);
        *ctx = niveles_superiores(&up);
        header = up;
    }
    let args: Vec<String> = if args_raw.len() == 0 {
        let a: Vec<String> = Vec::new();
        assert(string_views(a@) =~= Seq::<Seq<char>>::empty());
        a
    } else {
        let pieces = split_top_level(&args_raw, ',');
        let mut trimmed: Vec<Vec<char>> = Vec::new();
        let mut k: usize = 0;
        while k < pieces.len()
            invariant
                k <= pieces.len(),
                views(trimmed@) == views(pieces@).take(k as int).map_values(|a: Seq<char>| trim(a)),
            decreases pieces.len() - k,
        {
            let a = trim_vec(&pieces[k]);
            let ghost before = views(trimmed@);
            trimmed.push(a);
            assert(views(trimmed@) =~= before.push(a@));
            assert(views(pieces@).take(k + 1) =~= views(pieces@).take(k as int).push(pieces@[k as int]@));
            k += 1;
        }
        assert(views(pieces@).take(pieces.len() as int) =~= views(pieces@));
        strings_from(&trimmed)
    };
    let ghost spec_args = if args_raw@.len() == 0 {
        Seq::<Seq<char>>::empty()
    } else {
        split_top(args_raw@, ',').map_values(|a: Seq<char>| trim(a))
    };
    assert(string_views(args@) == spec_args);
    assert(query == (head@.len() > 0 && head@.last() == '?'));
    let ghost sh = if cab@[0] == '*' {
        (upper(cab@), ctx0)
    } else if cab@[0] == ':' {
        (upper(cab@.drop_first()), levels(cab@.drop_first()))
    } else if ctx0.len() == 0 {
        (upper(cab@), levels(cab@))
    } else {
        let full = upper(join_colon(ctx0) + seq![':'] + cab@);
        (full, levels(full))
    };
    assert(header@ == sh.0 && views(ctx@) == sh.1);
    let c = Command { header: string_from(&header), query, args };
    assert(c@ == CommandView { header: sh.0, query, args: spec_args });
    Some(Ok(c))
}

/// Splits a received line into the commands it holds.
///
/// Fails only when the syntax is beyond repair (a piece with no header);
/// whether a header exists is found later, at dispatch.
pub fn parse_message(line: &str) -> (r: Result<Vec<Command>, ScpiError>)
    ensures
        match parse_message_spec(line@) {
            Ok(cmds) => r is Ok && r.unwrap()@.map_values(|c: Command| c@) == cmds,
            Err(e) => r is Err && r->Err_0@ == e,
        },
{
    let text = chars_of(line);
    let pieces = split_top_level(&text, ';');
    let mut commands: Vec<Command> = Vec::new();
    let mut ctx: Vec<Vec<char>> = Vec::new();
    let mut k: usize = 0;
    assert(views(pieces@).take(0) =~= Seq::<Seq<char>>::empty());
    assert(commands@.map_values(|c: Command| c@) =~= Seq::<CommandView>::empty());
    assert(views(ctx@) =~= Seq::<Seq<char>>::empty());
    while k < pieces.len()
        invariant
            k <= pieces.len(),
            views(pieces@) == split_top(line@, ';'),
            parse_pieces(views(pieces@).take(k as int)) == Ok::<(Seq<CommandView>, Seq<Seq<char>>), ScpiErrorView>(
                (commands@.map_values(|c: Command| c@), views(ctx@)),
            ),
        decreases pieces.len() - k,
    {
        let ghost pre = views(pieces@).take(k as int);
        assert(views(pieces@).take(k + 1).drop_last() == pre);
        assert(views(pieces@).take(k + 1).last() == pieces@[k as int]@);
        let ghost before = commands@.map_values(|c: Command| c@);
        match parse_piece_exec(&mut ctx, &pieces[k]) {
            None => {},
            Some(Err(t)) => {
                let ts = string_from(&t);
                let e = ScpiError { code: ErrorCode::SyntaxError, detail: Some(ts) };
                proof {
                    lemma_parse_pieces_error_sticks(views(pieces@), k as int + 1);
                    assert(views(pieces@).take(pieces.len() as int) == views(pieces@));
                }
                return Err(e);
            },
            Some(Ok(c)) => {
                commands.push(c);
                assert(commands@.map_values(|c: Command| c@) =~= before.push(c@));
            },
        }
        k += 1;
    }
    assert(views(pieces@).take(pieces.len() as int) == views(pieces@));
    Ok(commands)
}

/// Once a prefix of the pieces fails, every longer prefix fails with the
/// same error.
proof fn lemma_parse_pieces_error_sticks(pieces: Seq<Seq<char>>, k: int)
    requires
        0 <= k <= pieces.len(),
        parse_pieces(pieces.take(k)) is Err,
    ensures
        parse_pieces(pieces) == parse_pieces(pieces.take(k)),
    decreases pieces.len() - k,
{
    if k < pieces.len() {
        assert(pieces.take(k + 1).drop_last() == pieces.take(k));
        lemma_parse_pieces_error_sticks(pieces, k + 1);
    } else {
        assert(pieces.take(k) == pieces);
    }
}

/// The outcome of reading argument `i` of a command: the argument, or a
/// missing-parameter error.
pub open spec fn arg_spec(c: CommandView, i: int) -> Result<Seq<char>, ScpiErrorView> {
    if 0 <= i < c.args.len() {
        Ok(c.args[i])
    } else {
        Err(ScpiErrorView { code: ErrorCode::MissingParameter, detail: None })
    }
}

/// The outcome of reading argument `i` as a boolean: `ON` and `1` are true,
/// `OFF` and `0` false, in any case; anything else is an illegal value.
pub open spec fn boolean_spec(c: CommandView, i: int) -> Result<bool, ScpiErrorView> {
    match arg_spec(c, i) {
        Err(e) => Err(e),
        Ok(raw) => {
            let up = upper(raw);
            if up == "ON"@ || up == "1"@ {
                Ok(true)
            } else if up == "OFF"@ || up == "0"@ {
                Ok(false)
            } else {
                Err(ScpiErrorView { code: ErrorCode::IllegalParameterValue, detail: Some(raw) })
            }
        },
    }
}

/// A numeric argument as written: one of the keywords SCPI accepts in place
/// of a number, or the text of the number with its unit suffix left out.
#[derive(Debug, Clone, PartialEq, Eq)]
pub enum NumericArg {
    /// `MINimum`.
    Min,
    /// `MAXimum`.
    Max,
    /// `DEFault`.
    Default,
    /// A number: the leading characters that can belong to one, and the
    /// argument as received, which an unreadable number reports.
    Number { digits: String, raw: String },
}

/// A character that can belong to a number.
pub open spec fn is_number_char(c: char) -> bool {
    is_ascii_digit(c) || c == '+' || c == '-' || c == '.' || c == 'e' || c == 'E'
}

/// How many leading characters of `s` can belong to a number.
pub open spec fn number_prefix_len(s: Seq<char>) -> nat
    decreases s.len(),
{
    if s.len() == 0 || !is_number_char(s[0]) {
        0
    } else {
        1 + number_prefix_len(s.drop_first())
    }
}

/// `up` abbreviates the keyword `full` and is at least as long as `short`.
pub open spec fn abbreviates(up: Seq<char>, full: Seq<char>, short: Seq<char>) -> bool {
    starts_with(full, up) && starts_with(up, short)
}

fn abbreviates_exec(up: &Vec<char>, full: &str, short: &str) -> (r: bool)
    ensures
        r == abbreviates(up@, full@, short@),
{
    let f = chars_of(full);
    let sh = chars_of(short);
    if up.len() > f.len() || sh.len() > up.len() {
        return false;
    }
    eq_chars(&slice_vec(&f, 0, up.len()), up) && eq_chars(&slice_vec(up, 0, sh.len()), &sh)
}

impl Command {
    /// A numeric argument. `MINimum`, `MAXimum` and `DEFault`, in any case and
    /// abbreviated to no less than three letters, stand for themselves;
    /// otherwise the leading digits, signs, points and exponent letters are
    /// the number, and a unit suffix after them is left out.
    pub fn numeric_arg(&self, i: usize) -> (r: Result<NumericArg, ScpiError>)
        ensures
            match arg_spec(self@, i as int) {
                Err(e) => r is Err && r->Err_0@ == e,
                Ok(raw) => if abbreviates(upper(raw), "MINIMUM"@, "MIN"@) {
                    r == Ok::<NumericArg, ScpiError>(NumericArg::Min)
                } else if abbreviates(upper(raw), "MAXIMUM"@, "MAX"@) {
                    r == Ok::<NumericArg, ScpiError>(NumericArg::Max)
                } else if abbreviates(upper(raw), "DEFAULT"@, "DEF"@) {
                    r == Ok::<NumericArg, ScpiError>(NumericArg::Default)
                } else {
                    r matches Ok(NumericArg::Number { digits, raw: rw }) && digits@ == raw.take(
                        number_prefix_len(raw) as int,
                    ) && rw@ == raw
                },
            },
    {
        let raw = match self.arg(i) {
            Ok(a) => a,
            Err(e) => return Err(e),
        };
        let v = chars_of(raw);
        let up = upper_vec(&v);
        if abbreviates_exec(&up, "MINIMUM", "MIN") {
            return Ok(NumericArg::Min);
        }
        if abbreviates_exec(&up, "MAXIMUM", "MAX") {
            return Ok(NumericArg::Max);
        }
        if abbreviates_exec(&up, "DEFAULT", "DEF") {
            return Ok(NumericArg::Default);
        }
        let mut k: usize = 0;
        assert(v@.skip(0) == v@);
        while k < v.len() && (('0' <= v[k] && v[k] <= '9') || v[k] == '+' || v[k] == '-' || v[k] == '.'
            || v[k] == 'e' || v[k] == 'E')
            invariant
                k <= v.len(),
                number_prefix_len(v@) == k + number_prefix_len(v@.skip(k as int)),
            decreases v.len() - k,
        {
            assert(v@.skip(k as int).drop_first() == v@.skip(k + 1));
            k += 1;
        }
        assert(number_prefix_len(v@.skip(k as int)) == 0);
        let digits = string_from(&slice_vec(&v, 0, k));
        Ok(NumericArg::Number { digits, raw: raw.to_string() })
    }

    /// Whether it is an IEEE 488.2 common command, one that starts with an
    /// asterisk.
    pub fn is_common(&self) -> (r: bool)
        ensures
            r == (self@.header.len() > 0 && self@.header[0] == '*'),
    {
        let h = chars_of(self.header.as_str());
        h.len() > 0 && h[0] == '*'
    }

    /// The argument at the given position, or the missing-parameter error.
    pub fn arg(&self, i: usize) -> (r: Result<&str, ScpiError>)
        ensures
            match arg_spec(self@, i as int) {
                Ok(a) => r is Ok && r.unwrap()@ == a,
                Err(e) => r is Err && r->Err_0@ == e,
            },
    {
        if i < self.args.len() {
            Ok(self.args[i].as_str())
        } else {
            Err(ScpiError::new(ErrorCode::MissingParameter))
        }
    }

    /// A boolean argument: `ON`, `OFF`, `1`, `0`.
    pub fn boolean(&self, i: usize) -> (r: Result<bool, ScpiError>)
        ensures
            match boolean_spec(self@, i as int) {
                Ok(b) => r == Ok::<bool, ScpiError>(b),
                Err(e) => r is Err && r->Err_0@ == e,
            },
    {
        let raw = match self.arg(i) {
            Ok(a) => a,
            Err(e) => return Err(e),
        };
        let up = upper_vec(&chars_of(raw));
        let on = chars_of("ON");
        let one = chars_of("1");
        let off = chars_of("OFF");
        let zero = chars_of("0");
        if eq_chars(&up, &on) || eq_chars(&up, &one) {
            Ok(true)
        } else if eq_chars(&up, &off) || eq_chars(&up, &zero) {
            Ok(false)
        } else {
            Err(ScpiError::with_detail(ErrorCode::IllegalParameterValue, raw))
        }
    }

    /// Rejects extra arguments: a command that expects none must complain,
    /// not ignore them.
    pub fn expect_no_args(&self) -> (r: Result<(), ScpiError>)
        ensures
            self@.args.len() == 0 ==> r is Ok,
            self@.args.len() != 0 ==> r is Err && r->Err_0@ == (ScpiErrorView {
                code: ErrorCode::ParameterNotAllowed,
                detail: None,
            }),
    {
        if self.args.len() == 0 {
            Ok(())
        } else {
            Err(ScpiError::new(ErrorCode::ParameterNotAllowed))
        }
    }
}

/// What `trim_start` leaves does not start with white space.
proof fn lemma_trim_start_clean(s: Seq<char>)
    ensures
        trim_start(s).len() > 0 ==> !is_space(trim_start(s)[0]),
    decreases s.len(),
{
    if s.len() > 0 && is_space(s[0]) {
        lemma_trim_start_clean(s.drop_first());
    }
}

/// What `trim_end` leaves is a prefix of the text that does not end with
/// white space.
proof fn lemma_trim_end_clean(s: Seq<char>)
    ensures
        trim_end(s).len() <= s.len(),
        trim_end(s) == s.take(trim_end(s).len() as int),
        trim_end(s).len() > 0 ==> !is_space(trim_end(s).last()),
    decreases s.len(),
{
    if s.len() > 0 && is_space(s.last()) {
        lemma_trim_end_clean(s.drop_last());
        assert(s.drop_last().take(trim_end(s).len() as int) =~= s.take(trim_end(s).len() as int));
    } else {
        assert(s.take(s.len() as int) == s);
    }
}

/// Trimmed text has white space at neither end.
proof fn lemma_trim_clean(s: Seq<char>)
    ensures
        trim(s).len() > 0 ==> !is_space(trim(s)[0]) && !is_space(trim(s).last()),
{
    lemma_trim_start_clean(s);
    lemma_trim_end_clean(trim_start(s));
    assert(trim(s) == trim_end(trim_start(s)));
    if trim(s).len() > 0 {
        assert(trim(s) == trim_start(s).take(trim(s).len() as int));
        assert(trim(s)[0] == trim_start(s)[0]);
    }
}

/// The arguments of the pieces' commands have white space at neither end.
proof fn lemma_pieces_args_clean(pieces: Seq<Seq<char>>)
    ensures
        parse_pieces(pieces) is Ok ==> forall|k: int, i: int|
            0 <= k < parse_pieces(pieces)->Ok_0.0.len() && 0 <= i < parse_pieces(pieces)->Ok_0.0[k].args.len()
                && (#[trigger] parse_pieces(pieces)->Ok_0.0[k].args[i]).len() > 0 ==> !is_space(
                parse_pieces(pieces)->Ok_0.0[k].args[i][0],
            ) && !is_space(parse_pieces(pieces)->Ok_0.0[k].args[i].last()),
    decreases pieces.len(),
{
    if pieces.len() > 0 {
        lemma_pieces_args_clean(pieces.drop_last());
        match parse_pieces(pieces.drop_last()) {
            Err(_) => {},
            Ok((cmds, ctx)) => match parse_piece(ctx, pieces.last()) {
                Some(Ok((c, next))) => {
                    let all = cmds.push(c);
                    assert forall|i: int| 0 <= i < c.args.len() && (#[trigger] c.args[i]).len() > 0 implies !is_space(
                        c.args[i][0],
                    ) && !is_space(c.args[i].last()) by {
                        let t = trim(pieces.last());
                        let sp = first_space(t) as int;
                        let args_raw = trim(t.skip(sp));
                        let parts = split_top(args_raw, ',');
                        assert(c.args[i] == trim(parts[i]));
                        lemma_trim_clean(parts[i]);
                    }
                    assert forall|k: int, i: int|
                        0 <= k < all.len() && 0 <= i < all[k].args.len() && (#[trigger] all[k].args[i]).len() > 0 implies !is_space(
                        all[k].args[i][0],
                    ) && !is_space(all[k].args[i].last()) by {
                        if k < cmds.len() {
                            assert(all[k] == cmds[k]);
                        } else {
                            assert(all[k] == c);
                        }
                    }
                },
                _ => {},
            },
        }
    }
}

/// Every argument of every command of a message is trimmed: white space
/// around an argument, such as after the comma in `CONF:VOLT:DC 10, 0.001`,
/// is not part of it.
pub proof fn law_arguments_are_trimmed(line: Seq<char>)
    ensures
        match parse_message_spec(line) {
            Ok(cmds) => forall|k: int, i: int|
                0 <= k < cmds.len() && 0 <= i < cmds[k].args.len() && (#[trigger] cmds[k].args[i]).len() > 0 ==> !is_space(
                    cmds[k].args[i][0],
                ) && !is_space(cmds[k].args[i].last()),
            Err(_) => true,
        },
{
    lemma_pieces_args_clean(split_top(line, ';'));
}

/// The first white space lies within the text.
proof fn lemma_first_space_bound(s: Seq<char>)
    ensures
        first_space(s) <= s.len(),
    decreases s.len(),
{
    if s.len() > 0 && !is_space(s[0]) {
        lemma_first_space_bound(s.drop_first());
    }
}

/// Upper-cased text holds no lower-case letter and keeps its length and its
/// question marks.
proof fn lemma_upper_shape(x: Seq<char>)
    ensures
        upper(x).len() == x.len(),
        forall|i: int| 0 <= i < x.len() ==> !is_ascii_lower(#[trigger] upper(x)[i]),
        forall|i: int| 0 <= i < x.len() ==> (upper(x)[i] == '?' <==> x[i] == '?'),
{
    assert forall|i: int| 0 <= i < x.len() implies !is_ascii_lower(#[trigger] upper(x)[i]) by {
        let c = x[i];
        if is_ascii_lower(c) {
            assert(upper(x)[i] == (((c as int) - 32) as char));
        }
    }
}

/// What `strip_trailing` leaves is a prefix that does not end with `c`.
proof fn lemma_strip_trailing(s: Seq<char>, c: char)
    ensures
        strip_trailing(s, c).len() <= s.len(),
        strip_trailing(s, c) == s.take(strip_trailing(s, c).len() as int),
        strip_trailing(s, c).len() > 0 ==> strip_trailing(s, c).last() != c,
    decreases s.len(),
{
    if s.len() > 0 && s.last() == c {
        lemma_strip_trailing(s.drop_last(), c);
        assert(s.drop_last().take(strip_trailing(s, c).len() as int) =~= s.take(strip_trailing(s, c).len() as int));
    } else {
        assert(s.take(s.len() as int) == s);
    }
}

/// The header of a parsed command is in upper case, whatever case it was
/// written in, and does not end with a question mark: the `?` of a query is
/// read into the query flag, and the flag is set exactly when the header was
/// written with a `?`.
pub proof fn law_header_is_upper_case(ctx: Seq<Seq<char>>, raw: Seq<char>)
    ensures
        match parse_piece(ctx, raw) {
            Some(Ok((c, _))) => (forall|i: int| 0 <= i < c.header.len() ==> !is_ascii_lower(#[trigger] c.header[i]))
                && (c.header.len() > 0 ==> c.header.last() != '?') && c.query == ({
                let t = trim(raw);
                let head = t.take(first_space(t) as int);
                head.len() > 0 && head.last() == '?'
            }),
            _ => true,
        },
{
    let t = trim(raw);
    if t.len() > 0 {
        let head = t.take(first_space(t) as int);
        let cab = strip_trailing(head, '?');
        lemma_strip_trailing(head, '?');
        if cab.len() > 0 {
            if cab[0] == '*' {
                lemma_upper_shape(cab);
                assert(upper(cab).last() == upper(cab)[cab.len() - 1]);
            } else if cab[0] == ':' {
                lemma_upper_shape(cab.drop_first());
                if cab.len() > 1 {
                    assert(cab.drop_first()[cab.len() - 2] == cab.last());
                }
            } else if ctx.len() == 0 {
                lemma_upper_shape(cab);
            } else {
                let full = join_colon(ctx) + seq![':'] + cab;
                lemma_upper_shape(full);
                assert(full.last() == cab.last());
                assert(full[full.len() - 1] == cab.last());
            }
        }
    }
}

/// A header written with a leading colon starts again from the root: it
/// reads the same, and leaves the same level for the commands that follow,
/// whatever the commands before it were.
pub proof fn law_leading_colon_resets_the_level(ctx1: Seq<Seq<char>>, ctx2: Seq<Seq<char>>, raw: Seq<char>)
    requires
        trim(raw).len() > 0,
        trim(raw)[0] == ':',
    ensures
        parse_piece(ctx1, raw) == parse_piece(ctx2, raw),
{
    let t = trim(raw);
    let head = t.take(first_space(t) as int);
    lemma_strip_trailing(head, '?');
    assert(!is_space(t[0]));
    assert(first_space(t) > 0);
    lemma_first_space_bound(t);
    assert(head[0] == t[0]);
    let cab = strip_trailing(head, '?');
    if cab.len() > 0 {
        assert(cab[0] == head[0]);
    }
}

/// A common command, one written with an asterisk, leaves the level of the
/// tree where it was for the commands that follow.
pub proof fn law_common_command_keeps_the_level(ctx: Seq<Seq<char>>, raw: Seq<char>)
    requires
        trim(raw).len() > 0,
        trim(raw)[0] == '*',
    ensures
        match parse_piece(ctx, raw) {
            Some(Ok((_, next))) => next == ctx,
            _ => true,
        },
{
    let t = trim(raw);
    let head = t.take(first_space(t) as int);
    lemma_strip_trailing(head, '?');
    assert(!is_space(t[0]));
    assert(first_space(t) > 0);
    lemma_first_space_bound(t);
    assert(head[0] == t[0]);
    let cab = strip_trailing(head, '?');
    if cab.len() > 0 {
        assert(cab[0] == head[0]);
    }
}

/// Text without white space has its first white space at its end.
proof fn lemma_first_space_none(s: Seq<char>)
    requires
        forall|i: int| 0 <= i < s.len() ==> !is_space(#[trigger] s[i]),
    ensures
        first_space(s) == s.len(),
    decreases s.len(),
{
    if s.len() > 0 {
        assert forall|i: int| 0 <= i < s.drop_first().len() implies !is_space(#[trigger] s.drop_first()[i]) by {
            assert(s.drop_first()[i] == s[i + 1]);
        }
        lemma_first_space_none(s.drop_first());
    }
}

/// A command written without white space and not ending in `?` is read as
/// the whole of its text, with no argument.
proof fn lemma_bare_piece(s: Seq<char>)
    requires
        s.len() > 0,
        forall|i: int| 0 <= i < s.len() ==> !is_space(#[trigger] s[i]),
        s.last() != '?',
    ensures
        trim(s) == s,
        trim(s).take(first_space(trim(s)) as int) == s,
        strip_trailing(s, '?') == s,
        trim(trim(s).skip(first_space(trim(s)) as int)).len() == 0,
{
    assert(trim_start(s) == s);
    assert(trim_end(s) == s);
    lemma_first_space_none(s);
    assert(s.take(s.len() as int) == s);
    assert(s.skip(s.len() as int) =~= Seq::<char>::empty());
    assert(trim(Seq::<char>::empty()) =~= Seq::<char>::empty());
}

/// A chained command that does not start with a colon is read relative to
/// the level left by the command before it: in that context it reads
/// exactly as the same command written in full from the root, with a
/// leading colon, reads in any context.
pub proof fn law_relative_header_is_the_full_path(
    ctx: Seq<Seq<char>>,
    other: Seq<Seq<char>>,
    raw: Seq<char>,
)
    requires
        ctx.len() > 0,
        raw.len() > 0,
        raw[0] != '*' && raw[0] != ':',
        raw.last() != '?',
        forall|i: int| 0 <= i < raw.len() ==> !is_space(#[trigger] raw[i]),
        forall|i: int| 0 <= i < join_colon(ctx).len() ==> !is_space(#[trigger] join_colon(ctx)[i]),
    ensures
        match (parse_piece(ctx, raw), parse_piece(other, seq![':'] + join_colon(ctx) + seq![':'] + raw)) {
            (Some(Ok((c1, _))), Some(Ok((c2, _)))) => c1 == c2,
            _ => false,
        },
{
    let j = join_colon(ctx);
    let w = seq![':'] + j + seq![':'] + raw;
    assert forall|i: int| 0 <= i < w.len() implies !is_space(#[trigger] w[i]) by {
        if i == 0 || i == j.len() + 1 {
        } else if i <= j.len() {
            assert(w[i] == j[i - 1]);
        } else {
            assert(w[i] == raw[i - j.len() - 2]);
        }
    }
    assert(w.last() == raw.last());
    lemma_bare_piece(raw);
    lemma_bare_piece(w);
    assert(w.drop_first() =~= j + seq![':'] + raw);
    assert(w[0] == ':');
}

} // verus!
