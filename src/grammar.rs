//! The grammar of scripts, stated over the token stream that the lexer hands
//! out.
use vstd::prelude::*;

use crate::animation::AnimationDeclaration;
use crate::parser::{ParserError, Token, TokenV};
use crate::Command;

verus! {

broadcast use vstd::string::group_string_axioms;

/// An animation declaration: its name and arguments.
pub struct DeclV {
    pub name: Seq<char>,
    pub arguments: Seq<Option<i64>>,
}

pub open spec fn decl_view(d: Option<AnimationDeclaration>) -> Option<DeclV> {
    match d {
        Some(d) => Some(DeclV { name: d.name@, arguments: d.arguments@ }),
        None => None,
    }
}

/// A command with its names and texts as sequences of characters.
pub enum CommandV {
    Change(Seq<char>, Seq<char>, Option<DeclV>),
    Dialogue(Option<Seq<char>>, Seq<char>),
    Diverge(Seq<(Seq<char>, Seq<char>)>),
    Show(Seq<char>, Option<DeclV>),
    Hide(Seq<char>, Option<DeclV>),
    Position(Seq<char>, (i64, i64), Option<DeclV>),
    Kill(Seq<char>, Option<DeclV>),
    Spawn(Seq<char>, Seq<char>, (i64, i64), Option<Seq<char>>, Option<DeclV>),
    Stage(Seq<char>),
    Jump(Seq<char>),
    If(Seq<char>, Seq<char>),
    Flag(Seq<char>),
    Unflag(Seq<char>),
    Pause,
    Music(Seq<char>),
    Sound(Seq<char>),
}

impl View for Command {
    type V = CommandV;

    open spec fn view(&self) -> CommandV {
        match self {
            Command::Change(n, s, d) => CommandV::Change(n.0@, s.0@, decl_view(*d)),
            Command::Dialogue(c, t) => CommandV::Dialogue(
                match c {
                    Some(c) => Some(c.0@),
                    None => None,
                },
                t@,
            ),
            Command::Diverge(b) => CommandV::Diverge(b@.map_values(|e: (String, crate::Label)| (e.0@, e.1.0@))),
            Command::Show(n, d) => CommandV::Show(n.0@, decl_view(*d)),
            Command::Hide(n, d) => CommandV::Hide(n.0@, decl_view(*d)),
            Command::Position(n, p, d) => CommandV::Position(n.0@, *p, decl_view(*d)),
            Command::Kill(n, d) => CommandV::Kill(n.0@, decl_view(*d)),
            Command::Spawn(c, s, p, n, d) => CommandV::Spawn(
                c.0@,
                s.0@,
                *p,
                match n {
                    Some(n) => Some(n.0@),
                    None => None,
                },
                decl_view(*d),
            ),
            Command::Stage(p) => CommandV::Stage(p@),
            Command::Jump(l) => CommandV::Jump(l.0@),
            Command::If(f, l) => CommandV::If(f.0@, l.0@),
            Command::Flag(f) => CommandV::Flag(f.0@),
            Command::Unflag(f) => CommandV::Unflag(f.0@),
            Command::Pause => CommandV::Pause,
            Command::Music(p) => CommandV::Music(p@),
            Command::Sound(p) => CommandV::Sound(p@),
        }
    }
}

pub type Tokens = Seq<Result<TokenV, ParserError>>;

/// The token at `i`, if the stream reaches that far.
pub open spec fn tok_at(ts: Tokens, i: int) -> Option<Result<TokenV, ParserError>> {
    if 0 <= i < ts.len() {
        Some(ts[i])
    } else {
        None
    }
}

/// Where reading one token from `i` leaves the stream.
pub open spec fn next_at(ts: Tokens, i: int) -> int {
    if 0 <= i < ts.len() {
        i + 1
    } else {
        i
    }
}

/// A string token.
pub open spec fn read_string(ts: Tokens, i: int) -> Result<(Seq<char>, int), (ParserError, int)> {
    match tok_at(ts, i) {
        Some(Ok(TokenV::Str(w))) => Ok((w, i + 1)),
        Some(Err(e)) => Err((e, i + 1)),
        _ => Err((ParserError::ExpectedString, next_at(ts, i))),
    }
}

/// An identifier token.
pub open spec fn read_ident(ts: Tokens, i: int) -> Result<(Seq<char>, int), (ParserError, int)> {
    match tok_at(ts, i) {
        Some(Ok(TokenV::Identifier(w))) => Ok((w, i + 1)),
        Some(Err(e)) => Err((e, i + 1)),
        _ => Err((ParserError::ExpectedIdentifier, next_at(ts, i))),
    }
}

/// A number token.
pub open spec fn read_number(ts: Tokens, i: int) -> Result<(i64, int), (ParserError, int)> {
    match tok_at(ts, i) {
        Some(Ok(TokenV::Numeric(v))) => Ok((v as i64, i + 1)),
        Some(Err(e)) => Err((e, i + 1)),
        _ => Err((ParserError::ExpectedNumeric, next_at(ts, i))),
    }
}

/// The token `t`.
pub open spec fn read_token(ts: Tokens, i: int, t: Token) -> Result<int, (ParserError, int)> {
    match tok_at(ts, i) {
        Some(Ok(u)) => if u == t@ {
            Ok(i + 1)
        } else {
            Err((ParserError::Expected(t), i + 1))
        },
        Some(Err(e)) => Err((e, i + 1)),
        None => Err((ParserError::Expected(t), i)),
    }
}

/// `( x , y )`.
pub open spec fn read_position(ts: Tokens, i: int) -> Result<((i64, i64), int), (ParserError, int)> {
    match read_token(ts, i, Token::BracketOpen) {
        Err(f) => Err(f),
        Ok(i1) => match read_number(ts, i1) {
            Err(f) => Err(f),
            Ok((x, i2)) => match read_token(ts, i2, Token::ListSeparator) {
                Err(f) => Err(f),
                Ok(i3) => match read_number(ts, i3) {
                    Err(f) => Err(f),
                    Ok((y, i4)) => match read_token(ts, i4, Token::BracketClose) {
                        Err(f) => Err(f),
                        Ok(i5) => Ok(((x, y), i5)),
                    },
                },
            },
        },
    }
}

/// An argument of an animation: a number, or `_` for the default.
pub open spec fn argument_of(t: TokenV) -> Option<Option<i64>> {
    match t {
        TokenV::Underscore => Some(None),
        TokenV::Numeric(n) => Some(Some(n as i64)),
        _ => None,
    }
}

/// The arguments after `[`, separated by commas, up to `]` or the end of input.
pub open spec fn read_arguments(ts: Tokens, i: int, acc: Seq<Option<i64>>) -> Result<(Seq<Option<i64>>, int), (ParserError, int)>
    decreases ts.len() - i,
{
    if i < 0 || i >= ts.len() {
        Ok((acc, i))
    } else {
        match ts[i] {
            Err(e) => Err((e, i + 1)),
            Ok(TokenV::SquareClose) => Ok((acc, i + 1)),
            Ok(t) => if acc.len() > 0 {
                if t != TokenV::ListSeparator {
                    Err((ParserError::Expected(Token::ListSeparator), i + 1))
                } else if i + 1 >= ts.len() {
                    Ok((acc, i + 1))
                } else {
                    match ts[i + 1] {
                        Err(e) => Err((e, i + 2)),
                        Ok(u) => match argument_of(u) {
                            None => Err((ParserError::UnexpectedToken, i + 2)),
                            Some(a) => read_arguments(ts, i + 2, acc.push(a)),
                        },
                    }
                }
            } else {
                match argument_of(t) {
                    None => Err((ParserError::UnexpectedToken, i + 1)),
                    Some(a) => read_arguments(ts, i + 1, acc.push(a)),
                }
            },
        }
    }
}

/// `name [ arguments ]`.
pub open spec fn read_declaration(ts: Tokens, i: int) -> Result<(Option<DeclV>, int), (ParserError, int)> {
    match read_ident(ts, i) {
        Err(f) => Err(f),
        Ok((name, i1)) => match read_token(ts, i1, Token::SquareOpen) {
            Err(f) => Err(f),
            Ok(i2) => match read_arguments(ts, i2, Seq::empty()) {
                Err(f) => Err(f),
                Ok((arguments, i3)) => Ok((Some(DeclV { name, arguments }), i3)),
            },
        },
    }
}

/// An optional `with name[arguments]` at the end of a line; with `check_with`
/// unset the `with` has been read already.
pub open spec fn read_animation(ts: Tokens, i: int, check_with: bool) -> Result<(Option<DeclV>, int), (ParserError, int)> {
    if check_with {
        match tok_at(ts, i) {
            None => Ok((None, i)),
            Some(Ok(TokenV::Terminator)) => Ok((None, i + 1)),
            Some(Ok(TokenV::Identifier(w))) => if w == "with"@ {
                read_declaration(ts, i + 1)
            } else {
                Err((ParserError::UnexpectedToken, i + 1))
            },
            Some(Err(e)) => Err((e, i + 1)),
            Some(Ok(_)) => Err((ParserError::UnexpectedToken, i + 1)),
        }
    } else {
        read_declaration(ts, i)
    }
}

/// The lines of a divergence, `"text" label` each, up to the end of its scope.
pub open spec fn read_branches(ts: Tokens, i: int, acc: Seq<(Seq<char>, Seq<char>)>) -> Result<(Seq<(Seq<char>, Seq<char>)>, int), (ParserError, int)>
    decreases ts.len() - i,
{
    match tok_at(ts, i) {
        Some(Ok(TokenV::ScopeClose)) => Ok((acc, i + 1)),
        Some(Ok(TokenV::Str(w))) => match read_ident(ts, i + 1) {
            Err(f) => Err(f),
            Ok((l, i2)) => match read_token(ts, i2, Token::Terminator) {
                Err(f) => Err(f),
                Ok(i3) => read_branches(ts, i3, acc.push((w, l))),
            },
        },
        Some(Ok(TokenV::Terminator)) => read_branches(ts, i + 1, acc),
        Some(Err(e)) => Err((e, i + 1)),
        _ => Err((ParserError::ExpectedString, next_at(ts, i))),
    }
}

/// What one line of a script gives.
pub enum Line {
    /// The input is over.
    End,
    /// An empty line.
    Blank,
    /// A command.
    Push(CommandV),
    /// A label for the next command.
    Label(Seq<char>),
    /// An error, with the token up to which the input is skipped.
    Fail(ParserError, Token),
}

pub open spec fn failed(f: (ParserError, int)) -> (Line, int) {
    (Line::Fail(f.0, Token::Terminator), f.1)
}

/// `change "instance" "state" [with ...]`.
pub open spec fn line_change(ts: Tokens, i: int) -> (Line, int) {
    match read_string(ts, i) {
        Err(f) => failed(f),
        Ok((n, i1)) => match read_string(ts, i1) {
            Err(f) => failed(f),
            Ok((s, i2)) => match read_animation(ts, i2, true) {
                Err(f) => failed(f),
                Ok((d, i3)) => (Line::Push(CommandV::Change(n, s, d)), i3),
            },
        },
    }
}

/// `diverge`, a line end, and the indented branches.
pub open spec fn line_diverge(ts: Tokens, i: int) -> (Line, int) {
    match read_token(ts, i, Token::Terminator) {
        Err(f) => failed(f),
        Ok(i1) => match read_token(ts, i1, Token::ScopeOpen) {
            Err(f) => failed(f),
            Ok(i2) => match read_branches(ts, i2, Seq::empty()) {
                Err((e, k)) => (Line::Fail(e, Token::ScopeClose), k),
                Ok((b, k)) => (Line::Push(CommandV::Diverge(b)), k),
            },
        },
    }
}

/// `label name`.
pub open spec fn line_label(ts: Tokens, i: int) -> (Line, int) {
    match read_ident(ts, i) {
        Err(f) => failed(f),
        Ok((l, i1)) => (Line::Label(l), i1),
    }
}

/// `position "instance" (x, y) [with ...]`.
pub open spec fn line_position(ts: Tokens, i: int) -> (Line, int) {
    match read_string(ts, i) {
        Err(f) => failed(f),
        Ok((n, i1)) => match read_position(ts, i1) {
            Err(f) => failed(f),
            Ok((p, i2)) => match read_animation(ts, i2, true) {
                Err(f) => failed(f),
                Ok((d, i3)) => (Line::Push(CommandV::Position(n, p, d)), i3),
            },
        },
    }
}

/// `spawn "character" "state" (x, y) ["instance"] [with ...]`.
pub open spec fn line_spawn(ts: Tokens, i: int) -> (Line, int) {
    match read_string(ts, i) {
        Err(f) => failed(f),
        Ok((c, i1)) => match read_string(ts, i1) {
            Err(f) => failed(f),
            Ok((s, i2)) => match read_position(ts, i2) {
                Err(f) => failed(f),
                Ok((p, i3)) => match tok_at(ts, i3) {
                    None => (Line::Push(CommandV::Spawn(c, s, p, None, None)), i3),
                    Some(Ok(TokenV::Terminator)) => (Line::Push(CommandV::Spawn(c, s, p, None, None)), i3 + 1),
                    Some(Ok(TokenV::Identifier(x))) => if x == "with"@ {
                        match read_animation(ts, i3 + 1, false) {
                            Err(f) => failed(f),
                            Ok((d, i4)) => (Line::Push(CommandV::Spawn(c, s, p, None, d)), i4),
                        }
                    } else {
                        (Line::Fail(ParserError::UnexpectedToken, Token::Terminator), i3 + 1)
                    },
                    Some(Ok(TokenV::Str(n))) => match read_animation(ts, i3 + 1, true) {
                        Err(f) => failed(f),
                        Ok((d, i4)) => (Line::Push(CommandV::Spawn(c, s, p, Some(n), d)), i4),
                    },
                    Some(Err(e)) => (Line::Fail(e, Token::Terminator), i3 + 1),
                    Some(Ok(_)) => (Line::Fail(ParserError::UnexpectedToken, Token::Terminator), i3 + 1),
                },
            },
        },
    }
}

/// `if flag label`.
pub open spec fn line_if(ts: Tokens, i: int) -> (Line, int) {
    match read_ident(ts, i) {
        Err(f) => failed(f),
        Ok((f, i1)) => match read_ident(ts, i1) {
            Err(g) => failed(g),
            Ok((l, i2)) => (Line::Push(CommandV::If(f, l)), i2),
        },
    }
}

/// `flag name`, `unflag name` or `jump label`.
pub open spec fn line_named(ts: Tokens, i: int, w: Seq<char>) -> (Line, int) {
    match read_ident(ts, i) {
        Err(f) => failed(f),
        Ok((x, i1)) => (Line::Push(if w == "flag"@ {
            CommandV::Flag(x)
        } else if w == "unflag"@ {
            CommandV::Unflag(x)
        } else {
            CommandV::Jump(x)
        }), i1),
    }
}

/// `kill`, `show` or `hide`, with `"instance" [with ...]`.
pub open spec fn line_instance(ts: Tokens, i: int, w: Seq<char>) -> (Line, int) {
    match read_string(ts, i) {
        Err(f) => failed(f),
        Ok((n, i1)) => match read_animation(ts, i1, true) {
            Err(f) => failed(f),
            Ok((d, i2)) => (Line::Push(if w == "kill"@ {
                CommandV::Kill(n, d)
            } else if w == "show"@ {
                CommandV::Show(n, d)
            } else {
                CommandV::Hide(n, d)
            }), i2),
        },
    }
}

/// `stage`, `music` or `sound`, with `"path"`.
pub open spec fn line_path(ts: Tokens, i: int, w: Seq<char>) -> (Line, int) {
    match read_string(ts, i) {
        Err(f) => failed(f),
        Ok((p, i1)) => (Line::Push(if w == "stage"@ {
            CommandV::Stage(p)
        } else if w == "music"@ {
            CommandV::Music(p)
        } else {
            CommandV::Sound(p)
        }), i1),
    }
}

/// A line that starts with the keyword `w`, its arguments from `i` on.
pub open spec fn directive(ts: Tokens, i: int, w: Seq<char>) -> (Line, int) {
    if w == "change"@ {
        line_change(ts, i)
    } else if w == "diverge"@ {
        line_diverge(ts, i)
    } else if w == "label"@ {
        line_label(ts, i)
    } else if w == "position"@ {
        line_position(ts, i)
    } else if w == "spawn"@ {
        line_spawn(ts, i)
    } else if w == "if"@ {
        line_if(ts, i)
    } else if w == "pause"@ {
        (Line::Push(CommandV::Pause), i)
    } else if w == "flag"@ || w == "unflag"@ || w == "jump"@ {
        line_named(ts, i, w)
    } else if w == "kill"@ || w == "show"@ || w == "hide"@ {
        line_instance(ts, i, w)
    } else if w == "stage"@ || w == "music"@ || w == "sound"@ {
        line_path(ts, i, w)
    } else {
        (Line::Fail(ParserError::InvalidCommand, Token::Terminator), i)
    }
}

/// One line from `i` on, and where it leaves the stream: a dialogue (one
/// string, or a speaker and a string) ended by a line end, a directive, or an
/// empty line.
pub open spec fn parse_line(ts: Tokens, i: int) -> (Line, int) {
    match tok_at(ts, i) {
        None => (Line::End, i),
        Some(Err(e)) => (Line::Fail(e, Token::Terminator), i + 1),
        Some(Ok(TokenV::Terminator)) => (Line::Blank, i + 1),
        Some(Ok(TokenV::Identifier(w))) => directive(ts, i + 1, w),
        Some(Ok(TokenV::Str(w))) => match tok_at(ts, i + 1) {
            Some(Err(e)) => (Line::Fail(e, Token::Terminator), i + 2),
            None => (Line::Fail(ParserError::Expected(Token::Terminator), Token::Terminator), i + 1),
            Some(Ok(TokenV::Terminator)) => (Line::Push(CommandV::Dialogue(None, w)), i + 2),
            Some(Ok(TokenV::Str(d))) => match tok_at(ts, i + 2) {
                Some(Err(e)) => (Line::Fail(e, Token::Terminator), i + 3),
                None => (Line::Fail(ParserError::Expected(Token::Terminator), Token::Terminator), i + 2),
                Some(Ok(TokenV::Terminator)) => (Line::Push(CommandV::Dialogue(Some(w), d)), i + 3),
                Some(Ok(_)) => (Line::Fail(ParserError::Expected(Token::Terminator), Token::Terminator), i + 3),
            },
            Some(Ok(_)) => (Line::Fail(ParserError::Expected(Token::Terminator), Token::Terminator), i + 2),
        },
        Some(Ok(TokenV::ScopeOpen)) => (Line::Fail(ParserError::UnexpectedToken, Token::ScopeClose), i + 1),
        Some(Ok(_)) => (Line::Fail(ParserError::UnexpectedToken, Token::Terminator), i + 1),
    }
}

/// Where skipping from `j` up to and including the token `t` leaves the stream.
pub open spec fn skip(ts: Tokens, j: int, t: Token) -> int
    decreases ts.len() - j,
{
    if j < 0 || j >= ts.len() {
        if j < 0 { 0 } else { ts.len() as int }
    } else if ts[j] == Ok::<TokenV, ParserError>(t@) {
        j + 1
    } else {
        skip(ts, j + 1, t)
    }
}

/// What a parse has gathered: the commands, the label targets, the errors.
pub struct Parsed {
    pub commands: Seq<CommandV>,
    pub labels: Map<Seq<char>, int>,
    pub errors: Seq<ParserError>,
}

/// The parse of the rest of the stream from `i` on: each line adds its
/// command, its label (pointing at the next command; a later label of the
/// same name wins) or its error; after an error the input is skipped up to
/// its recovery token.
pub open spec fn parse_from(ts: Tokens, i: int, acc: Parsed) -> Parsed
    decreases ts.len() - i,
{
    let (line, j) = parse_line(ts, i);
    if line is End || j <= i || i < 0 || i >= ts.len() {
        acc
    } else {
        let next = match line {
            Line::Push(c) => Parsed { commands: acc.commands.push(c), ..acc },
            Line::Label(l) => Parsed { labels: acc.labels.insert(l, acc.commands.len() as int), ..acc },
            Line::Fail(e, _) => Parsed { errors: acc.errors.push(e), ..acc },
            _ => acc,
        };
        let k = match line {
            Line::Fail(_, t) => skip(ts, j, t),
            _ => j,
        };
        if k <= i || k > ts.len() {
            acc
        } else {
            parse_from(ts, k, next)
        }
    }
}

/// The parse of a whole token stream.
pub open spec fn parsed(ts: Tokens) -> Parsed {
    parse_from(ts, 0, Parsed { commands: Seq::empty(), labels: Map::empty(), errors: Seq::empty() })
}

pub proof fn lemma_arguments_forward(ts: Tokens, i: int, acc: Seq<Option<i64>>)
    requires
        0 <= i,
    ensures
        match read_arguments(ts, i, acc) {
            Ok((_, j)) => j >= i,
            Err((_, j)) => j >= i,
        },
    decreases ts.len() - i,
{
    if 0 <= i < ts.len() {
        if let Ok(t) = ts[i] {
            if t != TokenV::SquareClose {
                if acc.len() > 0 {
                    if t == TokenV::ListSeparator && i + 1 < ts.len() {
                        if let Ok(u) = ts[i + 1] {
                            if let Some(a) = argument_of(u) {
                                lemma_arguments_forward(ts, i + 2, acc.push(a));
                            }
                        }
                    }
                } else if let Some(a) = argument_of(t) {
                    lemma_arguments_forward(ts, i + 1, acc.push(a));
                }
            }
        }
    }
}

pub proof fn lemma_branches_forward(ts: Tokens, i: int, acc: Seq<(Seq<char>, Seq<char>)>)
    requires
        0 <= i,
    ensures
        match read_branches(ts, i, acc) {
            Ok((_, j)) => j > i,
            Err((_, j)) => j >= i,
        },
    decreases ts.len() - i,
{
    match tok_at(ts, i) {
        Some(Ok(TokenV::Str(w))) => {
            if let Ok((l, i2)) = read_ident(ts, i + 1) {
                if let Ok(i3) = read_token(ts, i2, Token::Terminator) {
                    lemma_branches_forward(ts, i3, acc.push((w, l)));
                }
            }
        },
        Some(Ok(TokenV::Terminator)) => {
            lemma_branches_forward(ts, i + 1, acc);
        },
        _ => {},
    }
}

/// Every line but the end of input reads at least one token.
pub proof fn lemma_line_forward(ts: Tokens, i: int)
    requires
        0 <= i,
    ensures
        parse_line(ts, i).0 is End || parse_line(ts, i).1 > i,
{
    assert forall|k: int, acc: Seq<Option<i64>>| 0 <= k implies match #[trigger] read_arguments(ts, k, acc) {
        Ok((_, j)) => j >= k,
        Err((_, j)) => j >= k,
    } by {
        lemma_arguments_forward(ts, k, acc);
    }
    assert forall|k: int, acc: Seq<(Seq<char>, Seq<char>)>| 0 <= k implies match #[trigger] read_branches(ts, k, acc) {
        Ok((_, j)) => j > k,
        Err((_, j)) => j >= k,
    } by {
        lemma_branches_forward(ts, k, acc);
    }
}

/// Skipping within the stream from `j` on is skipping within the whole
/// stream, shifted by `j`.
pub proof fn lemma_skip_shift(ts: Tokens, j: int, k: int, t: Token)
    requires
        0 <= j <= ts.len(),
        0 <= k,
    ensures
        skip(ts.subrange(j, ts.len() as int), k, t) + j == skip(ts, j + k, t),
    decreases ts.len() - j - k,
{
    let rest = ts.subrange(j, ts.len() as int);
    if k < rest.len() {
        assert(rest[k] == ts[j + k]);
        if rest[k] != Ok::<TokenV, ParserError>(t@) {
            lemma_skip_shift(ts, j, k + 1, t);
        }
    }
}

pub proof fn lemma_skip_forward(ts: Tokens, j: int, t: Token)
    requires
        0 <= j <= ts.len(),
    ensures
        j <= skip(ts, j, t) <= ts.len(),
    decreases ts.len() - j,
{
    if j < ts.len() && ts[j] != Ok::<TokenV, ParserError>(t@) {
        lemma_skip_forward(ts, j + 1, t);
    }
}

/// Whether some token of the stream is the string literal `w`.
pub open spec fn has_string(ts: Tokens, w: Seq<char>) -> bool {
    exists|k: int| 0 <= k < ts.len() && #[trigger] ts[k] == Ok::<TokenV, ParserError>(TokenV::Str(w))
}

/// Whether some token of the stream is the identifier `w`.
pub open spec fn has_identifier(ts: Tokens, w: Seq<char>) -> bool {
    exists|k: int| 0 <= k < ts.len() && #[trigger] ts[k] == Ok::<TokenV, ParserError>(TokenV::Identifier(w))
}

pub open spec fn branches_from(ts: Tokens, b: Seq<(Seq<char>, Seq<char>)>) -> bool {
    forall|j: int| 0 <= j < b.len() ==> has_string(ts, (#[trigger] b[j]).0) && has_identifier(ts, b[j].1)
}

/// Every text, path, character, state and instance name of the command is a
/// string literal of the stream, and every label and flag an identifier of it.
pub open spec fn from_tokens(ts: Tokens, c: CommandV) -> bool {
    match c {
        CommandV::Change(n, s, _) => has_string(ts, n) && has_string(ts, s),
        CommandV::Dialogue(w, t) => has_string(ts, t) && (w matches Some(x) ==> has_string(ts, x)),
        CommandV::Diverge(b) => branches_from(ts, b),
        CommandV::Show(n, _) | CommandV::Hide(n, _) | CommandV::Kill(n, _) => has_string(ts, n),
        CommandV::Position(n, _, _) => has_string(ts, n),
        CommandV::Spawn(c, s, _, n, _) => has_string(ts, c) && has_string(ts, s) && (n matches Some(x) ==> has_string(ts, x)),
        CommandV::Stage(p) | CommandV::Music(p) | CommandV::Sound(p) => has_string(ts, p),
        CommandV::Jump(l) | CommandV::Flag(l) | CommandV::Unflag(l) => has_identifier(ts, l),
        CommandV::If(f, l) => has_identifier(ts, f) && has_identifier(ts, l),
        CommandV::Pause => true,
    }
}

proof fn lemma_branches_from(ts: Tokens, i: int, acc: Seq<(Seq<char>, Seq<char>)>)
    requires
        branches_from(ts, acc),
    ensures
        read_branches(ts, i, acc) matches Ok((b, _)) ==> branches_from(ts, b),
    decreases ts.len() - i,
{
    match tok_at(ts, i) {
        Some(Ok(TokenV::Str(w))) => {
            if let Ok((l, i2)) = read_ident(ts, i + 1) {
                if let Ok(i3) = read_token(ts, i2, Token::Terminator) {
                    let acc2 = acc.push((w, l));
                    assert(ts[i] == Ok::<TokenV, ParserError>(TokenV::Str(w)));
                    assert(ts[i + 1] == Ok::<TokenV, ParserError>(TokenV::Identifier(l)));
                    assert forall|j: int| 0 <= j < acc2.len() implies has_string(ts, (#[trigger] acc2[j]).0) && has_identifier(ts, acc2[j].1) by {
                        if j < acc.len() {
                            assert(acc2[j] == acc[j]);
                        }
                    }
                    lemma_branches_from(ts, i3, acc2);
                }
            }
        },
        Some(Ok(TokenV::Terminator)) => {
            lemma_branches_from(ts, i + 1, acc);
        },
        _ => {},
    }
}

proof fn lemma_reads(ts: Tokens)
    ensures
        forall|k: int| 0 <= k && #[trigger] read_string(ts, k) is Ok ==> has_string(ts, read_string(ts, k)->Ok_0.0),
        forall|k: int| 0 <= k && #[trigger] read_ident(ts, k) is Ok ==> has_identifier(ts, read_ident(ts, k)->Ok_0.0),
        forall|k: int| 0 <= k < ts.len() && (#[trigger] ts[k]) is Ok && ts[k]->Ok_0 is Str ==> has_string(ts, ts[k]->Ok_0->Str_0),
{
    assert forall|k: int| 0 <= k && #[trigger] read_string(ts, k) is Ok implies has_string(ts, read_string(ts, k)->Ok_0.0) by {
        assert(ts[k] == Ok::<TokenV, ParserError>(TokenV::Str(read_string(ts, k)->Ok_0.0)));
    }
    assert forall|k: int| 0 <= k && #[trigger] read_ident(ts, k) is Ok implies has_identifier(ts, read_ident(ts, k)->Ok_0.0) by {
        assert(ts[k] == Ok::<TokenV, ParserError>(TokenV::Identifier(read_ident(ts, k)->Ok_0.0)));
    }
    assert forall|k: int| 0 <= k < ts.len() && (#[trigger] ts[k]) is Ok && ts[k]->Ok_0 is Str implies has_string(ts, ts[k]->Ok_0->Str_0) by {
        assert(ts[k] == Ok::<TokenV, ParserError>(TokenV::Str(ts[k]->Ok_0->Str_0)));
    }
}

proof fn lemma_directive_from_tokens(ts: Tokens, i: int, w: Seq<char>)
    requires
        0 <= i,
    ensures
        directive(ts, i, w).0 matches Line::Push(c) ==> from_tokens(ts, c),
        directive(ts, i, w).0 matches Line::Label(l) ==> has_identifier(ts, l),
{
    lemma_reads(ts);
    if w == "change"@ {
    } else if w == "diverge"@ {
        if let Ok(i1) = read_token(ts, i, Token::Terminator) {
            if let Ok(i2) = read_token(ts, i1, Token::ScopeOpen) {
                lemma_branches_from(ts, i2, Seq::empty());
            }
        }
    } else if w == "label"@ {
    } else if w == "position"@ {
    } else if w == "spawn"@ {
        if let Ok((c, i1)) = read_string(ts, i) {
            if let Ok((st, i2)) = read_string(ts, i1) {
                if let Ok((p, i3)) = read_position(ts, i2) {
                    if 0 <= i3 < ts.len() {
                        assert(ts[i3] == ts[i3]);
                    }
                }
            }
        }
    }
}

proof fn lemma_line_from_tokens(ts: Tokens, i: int)
    requires
        0 <= i,
    ensures
        parse_line(ts, i).0 matches Line::Push(c) ==> from_tokens(ts, c),
        parse_line(ts, i).0 matches Line::Label(l) ==> has_identifier(ts, l),
{
    lemma_reads(ts);
    match tok_at(ts, i) {
        Some(Ok(TokenV::Identifier(w))) => {
            lemma_directive_from_tokens(ts, i + 1, w);
        },
        Some(Ok(TokenV::Str(w))) => {
            assert(ts[i] == Ok::<TokenV, ParserError>(TokenV::Str(w)));
            if i + 1 < ts.len() {
                assert(ts[i + 1] == ts[i + 1]);
            }
        },
        _ => {},
    }
}

/// What a parse gathers comes from the stream: every command's names and
/// texts are literals or identifiers of it, and so is every label.
proof fn lemma_parse_from_tokens(ts: Tokens, i: int, acc: Parsed)
    requires
        forall|k: int| 0 <= k < acc.commands.len() ==> from_tokens(ts, #[trigger] acc.commands[k]),
        forall|l: Seq<char>| #[trigger] acc.labels.contains_key(l) ==> has_identifier(ts, l),
    ensures
        forall|k: int| 0 <= k < parse_from(ts, i, acc).commands.len() ==> from_tokens(ts, #[trigger] parse_from(ts, i, acc).commands[k]),
        forall|l: Seq<char>| #[trigger] parse_from(ts, i, acc).labels.contains_key(l) ==> has_identifier(ts, l),
    decreases ts.len() - i,
{
    let (line, j) = parse_line(ts, i);
    if !(line is End || j <= i || i < 0 || i >= ts.len()) {
        lemma_line_from_tokens(ts, i);
        let next = match line {
            Line::Push(c) => Parsed { commands: acc.commands.push(c), ..acc },
            Line::Label(l) => Parsed { labels: acc.labels.insert(l, acc.commands.len() as int), ..acc },
            Line::Fail(e, _) => Parsed { errors: acc.errors.push(e), ..acc },
            _ => acc,
        };
        assert forall|k: int| 0 <= k < next.commands.len() implies from_tokens(ts, #[trigger] next.commands[k]) by {
            if k < acc.commands.len() {
                assert(next.commands[k] == acc.commands[k]);
            }
        }
        let k = match line {
            Line::Fail(_, t) => skip(ts, j, t),
            _ => j,
        };
        if !(k <= i || k > ts.len()) {
            assert(parse_from(ts, i, acc) == parse_from(ts, k, next));
            lemma_parse_from_tokens(ts, k, next);
        } else {
            assert(parse_from(ts, i, acc) == acc);
        }
    } else {
        assert(parse_from(ts, i, acc) == acc);
    }
}

/// Parsing invents nothing: every text, path and name in the commands of a
/// parse is a string literal of the token stream, and every label, flag and
/// jump target an identifier of it.
pub proof fn lemma_parsed_from_tokens(ts: Tokens)
    ensures
        forall|k: int| 0 <= k < parsed(ts).commands.len() ==> from_tokens(ts, #[trigger] parsed(ts).commands[k]),
        forall|l: Seq<char>| #[trigger] parsed(ts).labels.contains_key(l) ==> has_identifier(ts, l),
{
    lemma_parse_from_tokens(ts, 0, Parsed { commands: Seq::empty(), labels: Map::empty(), errors: Seq::empty() });
}

} // verus!
