//! Turns the token stream of a script into commands and labels.
use vstd::prelude::*;

use crate::animation::{args_wf, pair_within, AnimationDeclaration, POSITION_LIMIT};
use crate::grammar::{
    decl_view, next_at, parse_from, parse_line, parsed, read_animation, read_arguments,
    read_branches, read_declaration, read_ident, read_number, read_position, read_string, read_token, skip,
    tok_at, CommandV, Line, Parsed, Tokens,
};
use crate::lexer::{lemma_read_one, start_state, stream, Lexer, NUMERIC_LIMIT};
use crate::table::{insert, text};
use crate::{CharacterName, Command, FlagName, InstanceName, Label, Script, StateName, Target};



verus! {

/// A token of the script language.
#[derive(Debug, PartialEq)]
pub enum Token {
    Identifier(String),
    String(String),
    /// A number in thousandths.
    Numeric(i64),
    ScopeOpen,
    ScopeClose,
    BracketOpen,
    BracketClose,
    SquareOpen,
    SquareClose,
    ListSeparator,
    Underscore,
    Terminator,
}

/// A token with its text as a sequence of characters.
pub enum TokenV {
    Identifier(Seq<char>),
    Str(Seq<char>),
    Numeric(int),
    ScopeOpen,
    ScopeClose,
    BracketOpen,
    BracketClose,
    SquareOpen,
    SquareClose,
    ListSeparator,
    Underscore,
    Terminator,
}

impl View for Token {
    type V = TokenV;

    open spec fn view(&self) -> TokenV {
        match self {
            Token::Identifier(s) => TokenV::Identifier(s@),
            Token::String(s) => TokenV::Str(s@),
            Token::Numeric(n) => TokenV::Numeric(*n as int),
            Token::ScopeOpen => TokenV::ScopeOpen,
            Token::ScopeClose => TokenV::ScopeClose,
            Token::BracketOpen => TokenV::BracketOpen,
            Token::BracketClose => TokenV::BracketClose,
            Token::SquareOpen => TokenV::SquareOpen,
            Token::SquareClose => TokenV::SquareClose,
            Token::ListSeparator => TokenV::ListSeparator,
            Token::Underscore => TokenV::Underscore,
            Token::Terminator => TokenV::Terminator,
        }
    }
}

/// An error met while lexing or parsing a script.
#[derive(Debug, PartialEq)]
pub enum ParserError {
    UnmatchedQuote,
    ExpectedIdentifier,
    ExpectedString,
    ExpectedNumeric,
    Expected(Token),
    UnexpectedToken,
    InvalidCommand,
    InvalidNumeric,
}

/// What one call of the lexer hands out, with tokens seen through their view.
pub open spec fn out_view(r: Option<Result<Token, ParserError>>) -> Option<Result<TokenV, ParserError>> {
    match r {
        None => None,
        Some(Ok(t)) => Some(Ok(t@)),
        Some(Err(e)) => Some(Err(e)),
    }
}

/// Whether `s` reads `w`.
fn is_word(s: &String, w: &str) -> (r: bool)
    ensures
        r == (s@ == w@),
{
    *s == text(w)
}

impl Script {
    /// What parsing keeps true of a script: its commands are well formed and
    /// every label leads to a command index at most the number of commands.
    pub open spec fn parsed_wf(&self) -> bool {
        &&& forall|i: int| 0 <= i < self.commands@.len() ==> (#[trigger] self.commands@[i]).wf()
        &&& forall|i: int| 0 <= i < self.labels@.len() ==> (#[trigger] self.labels@[i]).1.0 <= self.commands@.len()
    }
}

/// `after` holds what `before` held, with at most one more command.
pub open spec fn extends(before: Script, after: Script) -> bool {
    &&& after.parsed_wf()
    &&& before.commands@.len() <= after.commands@.len() <= before.commands@.len() + 1
    &&& forall|i: int| 0 <= i < before.commands@.len() ==> after.commands@[i] == before.commands@[i]
    &&& after.characters == before.characters
    &&& after.images == before.images
    &&& after.audio == before.audio
    &&& after.animations == before.animations
}

fn push_command(script: &mut Script, c: Command)
    requires
        old(script).parsed_wf(),
        c.wf(),
    ensures
        final(script).commands@ == old(script).commands@.push(c),
        extends(*old(script), *final(script)),
        final(script).labels == old(script).labels,
{
    script.commands.push(c);
    assert forall|i: int| 0 <= i < script.labels@.len() implies (#[trigger] script.labels@[i]).1.0 <= script.commands@.len() by {
        assert(script.labels@[i].1.0 <= old(script).commands@.len());
    }
}


/// The lexer stands at `ts[j..]`.
pub open spec fn at_stream(lx: Lexer, ts: Tokens, j: int) -> bool {
    &&& 0 <= j <= ts.len()
    &&& lx.wf()
    &&& stream(lx.chars@, lx.state()) == ts.subrange(j, ts.len() as int)
}

fn get_any(lexer: &mut Lexer, Ghost(ts): Ghost<Tokens>, Ghost(i): Ghost<int>) -> (r: Result<Option<Token>, (ParserError, Token)>)
    requires
        at_stream(*old(lexer), ts, i),
    ensures
        final(lexer).chars@ == old(lexer).chars@,
        at_stream(*final(lexer), ts, next_at(ts, i)),
        match tok_at(ts, i) {
            None => r matches Ok(None),
            Some(Ok(t)) => r matches Ok(Some(u)) && u@ == t,
            Some(Err(e)) => r == Err::<Option<Token>, (ParserError, Token)>((e, Token::Terminator)),
        },
        r matches Ok(Some(Token::Numeric(v))) ==> -NUMERIC_LIMIT <= v <= NUMERIC_LIMIT,
{
    let ghost l0 = *lexer;
    let r = lexer.token();
    proof {
        lemma_read_one(l0, *lexer, ts, i);
    }
    inline(r)
}

fn get_string(lexer: &mut Lexer, Ghost(ts): Ghost<Tokens>, Ghost(i): Ghost<int>) -> (r: Result<String, (ParserError, Token)>)
    requires
        at_stream(*old(lexer), ts, i),
    ensures
        final(lexer).chars@ == old(lexer).chars@,
        match read_string(ts, i) {
            Ok((w, j)) => r matches Ok(s) && s@ == w && at_stream(*final(lexer), ts, j),
            Err((e, j)) => r == Err::<String, (ParserError, Token)>((e, Token::Terminator)) && at_stream(*final(lexer), ts, j),
        },
{
    let ghost l0 = *lexer;
    let r = lexer.string();
    proof {
        lemma_read_one(l0, *lexer, ts, i);
    }
    inline(r)
}

fn get_ident(lexer: &mut Lexer, Ghost(ts): Ghost<Tokens>, Ghost(i): Ghost<int>) -> (r: Result<String, (ParserError, Token)>)
    requires
        at_stream(*old(lexer), ts, i),
    ensures
        final(lexer).chars@ == old(lexer).chars@,
        match read_ident(ts, i) {
            Ok((w, j)) => r matches Ok(s) && s@ == w && at_stream(*final(lexer), ts, j),
            Err((e, j)) => r == Err::<String, (ParserError, Token)>((e, Token::Terminator)) && at_stream(*final(lexer), ts, j),
        },
{
    let ghost l0 = *lexer;
    let r = lexer.identifier();
    proof {
        lemma_read_one(l0, *lexer, ts, i);
    }
    inline(r)
}

fn get_number(lexer: &mut Lexer, Ghost(ts): Ghost<Tokens>, Ghost(i): Ghost<int>) -> (r: Result<i64, (ParserError, Token)>)
    requires
        at_stream(*old(lexer), ts, i),
    ensures
        final(lexer).chars@ == old(lexer).chars@,
        match read_number(ts, i) {
            Ok((v, j)) => r == Ok::<i64, (ParserError, Token)>(v) && at_stream(*final(lexer), ts, j),
            Err((e, j)) => r == Err::<i64, (ParserError, Token)>((e, Token::Terminator)) && at_stream(*final(lexer), ts, j),
        },
        r matches Ok(v) ==> -NUMERIC_LIMIT <= v <= NUMERIC_LIMIT,
{
    let ghost l0 = *lexer;
    let r = lexer.numeric();
    proof {
        lemma_read_one(l0, *lexer, ts, i);
    }
    inline(r)
}

fn get_token(lexer: &mut Lexer, t: Token, Ghost(ts): Ghost<Tokens>, Ghost(i): Ghost<int>) -> (r: Result<(), (ParserError, Token)>)
    requires
        at_stream(*old(lexer), ts, i),
    ensures
        final(lexer).chars@ == old(lexer).chars@,
        match read_token(ts, i, t) {
            Ok(j) => r is Ok && at_stream(*final(lexer), ts, j),
            Err((e, j)) => r == Err::<(), (ParserError, Token)>((e, Token::Terminator)) && at_stream(*final(lexer), ts, j),
        },
{
    let ghost l0 = *lexer;
    let r = lexer.expect(t);
    proof {
        lemma_read_one(l0, *lexer, ts, i);
    }
    match r {
        Ok(()) => Ok(()),
        Err(e) => Err((e, Token::Terminator)),
    }
}

/// Pairs an error with the line end as the point of recovery.
pub fn inline<T>(result: Result<T, ParserError>) -> (r: Result<T, (ParserError, Token)>)
    ensures
        match result {
            Ok(v) => r == Ok::<T, (ParserError, Token)>(v),
            Err(e) => r matches Err((f, Token::Terminator)) && f == e,
        },
{
    match result {
        Ok(v) => Ok(v),
        Err(e) => Err((e, Token::Terminator)),
    }
}


/// `( x , y )`: a position, in thousandths.
pub fn position(lexer: &mut Lexer, Ghost(ts): Ghost<Tokens>, Ghost(i): Ghost<int>) -> (r: Result<(i64, i64), (ParserError, Token)>)
    requires
        at_stream(*old(lexer), ts, i),
    ensures
        final(lexer).chars@ == old(lexer).chars@,
        match read_position(ts, i) {
            Ok((p, j)) => r == Ok::<(i64, i64), (ParserError, Token)>(p) && at_stream(*final(lexer), ts, j),
            Err((e, j)) => r == Err::<(i64, i64), (ParserError, Token)>((e, Token::Terminator)) && at_stream(*final(lexer), ts, j),
        },
        r matches Ok(p) ==> pair_within(p, POSITION_LIMIT),
{
    get_token(lexer, Token::BracketOpen, Ghost(ts), Ghost(i))?;
    let ghost i1 = i + 1;
    let x = get_number(lexer, Ghost(ts), Ghost(i1))?;
    let ghost i2 = i1 + 1;
    get_token(lexer, Token::ListSeparator, Ghost(ts), Ghost(i2))?;
    let ghost i3 = i2 + 1;
    let y = get_number(lexer, Ghost(ts), Ghost(i3))?;
    let ghost i4 = i3 + 1;
    get_token(lexer, Token::BracketClose, Ghost(ts), Ghost(i4))?;
    Ok((x, y))
}

fn add_label(script: &mut Script, name: String)
    requires
        old(script).parsed_wf(),
    ensures
        extends(*old(script), *final(script)),
        final(script).commands == old(script).commands,
        final(script).labels@ == crate::table::insert_spec(old(script).labels@, name, Target(old(script).commands@.len() as usize)),
{
    let ghost before = script.labels@;
    let ghost key = name;
    let t = Target(script.commands.len());
    proof {
        crate::table::lemma_index_of(before, key@);
    }
    insert(&mut script.labels, name, t);
    assert forall|i: int| 0 <= i < script.labels@.len() implies (#[trigger] script.labels@[i]).1.0 <= script.commands@.len() by {
        match crate::table::index_of(before, key@) {
            Some(k) => {
                if i != k {
                    assert(script.labels@[i] == before[i]);
                }
            },
            None => {
                if i < before.len() {
                    assert(script.labels@[i] == before[i]);
                }
            },
        }
    }
}


/// The arguments of an animation after its `[`.
fn arguments(lexer: &mut Lexer, Ghost(ts): Ghost<Tokens>, Ghost(i): Ghost<int>) -> (r: Result<Vec<Option<i64>>, (ParserError, Token)>)
    requires
        at_stream(*old(lexer), ts, i),
    ensures
        final(lexer).chars@ == old(lexer).chars@,
        match read_arguments(ts, i, Seq::empty()) {
            Ok((a, j)) => r matches Ok(v) && v@ == a && at_stream(*final(lexer), ts, j),
            Err((e, j)) => r == Err::<Vec<Option<i64>>, (ParserError, Token)>((e, Token::Terminator)) && at_stream(*final(lexer), ts, j),
        },
        r matches Ok(v) ==> args_wf(v@),
{
    let mut arguments: Vec<Option<i64>> = Vec::new();
    let ghost mut pos = i;
    assert(arguments@ =~= Seq::<Option<i64>>::empty());
    loop
        invariant
            at_stream(*lexer, ts, pos),
            lexer.chars@ == old(lexer).chars@,
            read_arguments(ts, i, Seq::empty()) == read_arguments(ts, pos, arguments@),
            args_wf(arguments@),
        decreases ts.len() - pos,
    {
        let first = get_any(lexer, Ghost(ts), Ghost(pos));
        let mut token = match first {
            Err(f) => {
                return Err(f);
            },
            Ok(None) => {
                return Ok(arguments);
            },
            Ok(Some(t)) => t,
        };
        if matches!(token, Token::SquareClose) {
            return Ok(arguments);
        }
        let ghost mut next = pos + 1;
        if arguments.len() > 0 {
            if !matches!(token, Token::ListSeparator) {
                return Err((ParserError::Expected(Token::ListSeparator), Token::Terminator));
            }
            let second = get_any(lexer, Ghost(ts), Ghost(pos + 1));
            token = match second {
                Err(f) => {
                    return Err(f);
                },
                Ok(None) => {
                    return Ok(arguments);
                },
                Ok(Some(t)) => t,
            };
            proof {
                next = pos + 2;
            }
        }
        let argument = match token {
            Token::Underscore => None,
            Token::Numeric(n) => Some(n),
            _ => {
                return Err((ParserError::UnexpectedToken, Token::Terminator));
            },
        };
        arguments.push(argument);
        proof {
            pos = next;
        }
        assert forall|k: int| 0 <= k < arguments@.len() implies (#[trigger] arguments@[k] matches Some(v) ==> -crate::animation::TIME_LIMIT <= v <= crate::animation::TIME_LIMIT) by {
            if k < arguments@.len() - 1 {
                assert(arguments@[k] == arguments@.drop_last()[k]);
            }
        }
    }
}

/// `name[arguments]`.
fn declaration(lexer: &mut Lexer, Ghost(ts): Ghost<Tokens>, Ghost(i): Ghost<int>) -> (r: Result<Option<AnimationDeclaration>, (ParserError, Token)>)
    requires
        at_stream(*old(lexer), ts, i),
    ensures
        final(lexer).chars@ == old(lexer).chars@,
        match read_declaration(ts, i) {
            Ok((d, j)) => r matches Ok(x) && decl_view(x) == d && at_stream(*final(lexer), ts, j),
            Err((e, j)) => r == Err::<Option<AnimationDeclaration>, (ParserError, Token)>((e, Token::Terminator)) && at_stream(*final(lexer), ts, j),
        },
        r matches Ok(Some(d)) ==> d.wf(),
{
    let name = get_ident(lexer, Ghost(ts), Ghost(i))?;
    get_token(lexer, Token::SquareOpen, Ghost(ts), Ghost(i + 1))?;
    let arguments = arguments(lexer, Ghost(ts), Ghost(i + 2))?;
    Ok(Some(AnimationDeclaration { name, arguments }))
}

/// `with name[arg, ...]`, where each argument is a number or `_`; with
/// `check_with` unset the `with` has already been read. Nothing but a line
/// end may stand where `with` does.
pub fn animation(lexer: &mut Lexer, check_with: bool, Ghost(ts): Ghost<Tokens>, Ghost(i): Ghost<int>) -> (r: Result<Option<AnimationDeclaration>, (ParserError, Token)>)
    requires
        at_stream(*old(lexer), ts, i),
    ensures
        final(lexer).chars@ == old(lexer).chars@,
        match read_animation(ts, i, check_with) {
            Ok((d, j)) => r matches Ok(x) && decl_view(x) == d && at_stream(*final(lexer), ts, j),
            Err((e, j)) => r == Err::<Option<AnimationDeclaration>, (ParserError, Token)>((e, Token::Terminator)) && at_stream(*final(lexer), ts, j),
        },
        r matches Ok(Some(d)) ==> d.wf(),
{
    if check_with {
        match get_any(lexer, Ghost(ts), Ghost(i))? {
            None | Some(Token::Terminator) => {
                return Ok(None);
            },
            Some(Token::Identifier(word)) => {
                if !is_word(&word, "with") {
                    return Err((ParserError::UnexpectedToken, Token::Terminator));
                }
            },
            Some(_) => {
                return Err((ParserError::UnexpectedToken, Token::Terminator));
            },
        }
        declaration(lexer, Ghost(ts), Ghost(i + 1))
    } else {
        declaration(lexer, Ghost(ts), Ghost(i))
    }
}

pub open spec fn branches_view(b: Seq<(String, Label)>) -> Seq<(Seq<char>, Seq<char>)> {
    b.map_values(|e: (String, Label)| (e.0@, e.1.0@))
}

/// The lines of a divergence, each `"text" label`, up to the end of its scope;
/// the divergence is added to the script.
pub fn parse_diverge(lexer: &mut Lexer, script: &mut Script, Ghost(ts): Ghost<Tokens>, Ghost(i): Ghost<int>) -> (r: Result<(), ParserError>)
    requires
        at_stream(*old(lexer), ts, i),
        old(script).parsed_wf(),
    ensures
        final(lexer).chars@ == old(lexer).chars@,
        match read_branches(ts, i, Seq::empty()) {
            Ok((b, j)) => r is Ok && at_stream(*final(lexer), ts, j) && final(script).commands@.len() == old(script).commands@.len() + 1
                && final(script).commands@.last()@ == CommandV::Diverge(b) && final(script).commands@.drop_last() == old(script).commands@
                && final(script).labels == old(script).labels && extends(*old(script), *final(script)),
            Err((e, j)) => r == Err::<(), ParserError>(e) && at_stream(*final(lexer), ts, j) && *final(script) == *old(script),
        },
{
    let mut branches: Vec<(String, Label)> = Vec::new();
    let ghost mut pos = i;
    assert(branches_view(branches@) =~= Seq::<(Seq<char>, Seq<char>)>::empty());
    loop
        invariant
            at_stream(*lexer, ts, pos),
            lexer.chars@ == old(lexer).chars@,
            *script == *old(script),
            old(script).parsed_wf(),
            read_branches(ts, i, Seq::empty()) == read_branches(ts, pos, branches_view(branches@)),
        decreases ts.len() - pos,
    {
        match get_any(lexer, Ghost(ts), Ghost(pos)) {
            Ok(Some(Token::ScopeClose)) => {
                let ghost bv = branches_view(branches@);
                push_command(script, Command::Diverge(branches));
                assert(script.commands@.drop_last() =~= old(script).commands@);
                return Ok(());
            },
            Ok(Some(Token::String(string))) => {
                let identifier = match get_ident(lexer, Ghost(ts), Ghost(pos + 1)) {
                    Ok(x) => x,
                    Err((e, _)) => {
                        return Err(e);
                    },
                };
                match get_token(lexer, Token::Terminator, Ghost(ts), Ghost(pos + 2)) {
                    Ok(()) => {},
                    Err((e, _)) => {
                        return Err(e);
                    },
                }
                let ghost before = branches@;
                branches.push((string, Label(identifier)));
                assert(branches_view(branches@) =~= branches_view(before).push((string@, identifier@)));
                proof {
                    pos = pos + 3;
                }
            },
            Ok(Some(Token::Terminator)) => {
                proof {
                    pos = pos + 1;
                }
            },
            Err((e, _)) => {
                return Err(e);
            },
            _ => {
                return Err(ParserError::ExpectedString);
            },
        }
    }
}


/// What a line does to the script, and what parsing it returns.
pub open spec fn line_effect(before: Script, after: Script, line: Line, r: Result<bool, (ParserError, Token)>) -> bool {
    match line {
        Line::End => r == Ok::<bool, (ParserError, Token)>(true) && after == before,
        Line::Blank => r == Ok::<bool, (ParserError, Token)>(false) && after == before,
        Line::Push(c) => {
            &&& r == Ok::<bool, (ParserError, Token)>(false)
            &&& after.commands@.len() == before.commands@.len() + 1
            &&& after.commands@.last()@ == c
            &&& after.commands@.drop_last() == before.commands@
            &&& after.labels == before.labels
            &&& extends(before, after)
        },
        Line::Label(l) => {
            &&& r == Ok::<bool, (ParserError, Token)>(false)
            &&& after.commands == before.commands
            &&& extends(before, after)
            &&& crate::table::lookup(after.labels@, l) == Some(Target(before.commands@.len() as usize))
            &&& forall|k: Seq<char>| k != l ==> crate::table::lookup(after.labels@, k) == crate::table::lookup(before.labels@, k)
        },
        Line::Fail(e, t) => r == Err::<bool, (ParserError, Token)>((e, t)) && after == before,
    }
}

fn push_line(script: &mut Script, c: Command)
    requires
        old(script).parsed_wf(),
        c.wf(),
    ensures
        line_effect(*old(script), *final(script), Line::Push(c@), Ok(false)),
{
    push_command(script, c);
    assert(script.commands@.drop_last() =~= old(script).commands@);
}

fn change_line(lexer: &mut Lexer, script: &mut Script, Ghost(ts): Ghost<Tokens>, Ghost(p): Ghost<int>) -> (r: Result<bool, (ParserError, Token)>)
    requires
        at_stream(*old(lexer), ts, p),
        old(script).parsed_wf(),
    ensures
        final(lexer).chars@ == old(lexer).chars@,
        at_stream(*final(lexer), ts, crate::grammar::line_change(ts, p).1),
        line_effect(*old(script), *final(script), crate::grammar::line_change(ts, p).0, r),
{
    let instance = InstanceName(get_string(lexer, Ghost(ts), Ghost(p))?);
    let state = StateName(get_string(lexer, Ghost(ts), Ghost(p + 1))?);
    let animation = animation(lexer, true, Ghost(ts), Ghost(p + 2))?;
    push_line(script, Command::Change(instance, state, animation));
    Ok(false)
}

fn diverge_line(lexer: &mut Lexer, script: &mut Script, Ghost(ts): Ghost<Tokens>, Ghost(p): Ghost<int>) -> (r: Result<bool, (ParserError, Token)>)
    requires
        at_stream(*old(lexer), ts, p),
        old(script).parsed_wf(),
    ensures
        final(lexer).chars@ == old(lexer).chars@,
        at_stream(*final(lexer), ts, crate::grammar::line_diverge(ts, p).1),
        line_effect(*old(script), *final(script), crate::grammar::line_diverge(ts, p).0, r),
{
    get_token(lexer, Token::Terminator, Ghost(ts), Ghost(p))?;
    get_token(lexer, Token::ScopeOpen, Ghost(ts), Ghost(p + 1))?;
    match parse_diverge(lexer, script, Ghost(ts), Ghost(p + 2)) {
        Ok(()) => Ok(false),
        Err(e) => Err((e, Token::ScopeClose)),
    }
}

fn label_line(lexer: &mut Lexer, script: &mut Script, Ghost(ts): Ghost<Tokens>, Ghost(p): Ghost<int>) -> (r: Result<bool, (ParserError, Token)>)
    requires
        at_stream(*old(lexer), ts, p),
        old(script).parsed_wf(),
    ensures
        final(lexer).chars@ == old(lexer).chars@,
        at_stream(*final(lexer), ts, crate::grammar::line_label(ts, p).1),
        line_effect(*old(script), *final(script), crate::grammar::line_label(ts, p).0, r),
{
    let label = get_ident(lexer, Ghost(ts), Ghost(p))?;
    proof {
        crate::table::lemma_insert(script.labels@, label, Target(script.commands@.len() as usize));
    }
    add_label(script, label);
    Ok(false)
}

fn position_line(lexer: &mut Lexer, script: &mut Script, Ghost(ts): Ghost<Tokens>, Ghost(p): Ghost<int>) -> (r: Result<bool, (ParserError, Token)>)
    requires
        at_stream(*old(lexer), ts, p),
        old(script).parsed_wf(),
    ensures
        final(lexer).chars@ == old(lexer).chars@,
        at_stream(*final(lexer), ts, crate::grammar::line_position(ts, p).1),
        line_effect(*old(script), *final(script), crate::grammar::line_position(ts, p).0, r),
{
    let instance = InstanceName(get_string(lexer, Ghost(ts), Ghost(p))?);
    let position = position(lexer, Ghost(ts), Ghost(p + 1))?;
    let animation = animation(lexer, true, Ghost(ts), Ghost(p + 6))?;
    push_line(script, Command::Position(instance, position, animation));
    Ok(false)
}

fn spawn_line(lexer: &mut Lexer, script: &mut Script, Ghost(ts): Ghost<Tokens>, Ghost(p): Ghost<int>) -> (r: Result<bool, (ParserError, Token)>)
    requires
        at_stream(*old(lexer), ts, p),
        old(script).parsed_wf(),
    ensures
        final(lexer).chars@ == old(lexer).chars@,
        at_stream(*final(lexer), ts, crate::grammar::line_spawn(ts, p).1),
        line_effect(*old(script), *final(script), crate::grammar::line_spawn(ts, p).0, r),
{
    let character = CharacterName(get_string(lexer, Ghost(ts), Ghost(p))?);
    let state = StateName(get_string(lexer, Ghost(ts), Ghost(p + 1))?);
    let position = position(lexer, Ghost(ts), Ghost(p + 2))?;
    let ghost q = p + 7;
    let (instance_name, animation) = match get_any(lexer, Ghost(ts), Ghost(q))? {
        None | Some(Token::Terminator) => (None, None),
        Some(Token::Identifier(word)) => {
            if !is_word(&word, "with") {
                return Err((ParserError::UnexpectedToken, Token::Terminator));
            }
            (None, animation(lexer, false, Ghost(ts), Ghost(q + 1))?)
        },
        Some(Token::String(name)) => (Some(InstanceName(name)), animation(lexer, true, Ghost(ts), Ghost(q + 1))?),
        Some(_) => {
            return Err((ParserError::UnexpectedToken, Token::Terminator));
        },
    };
    push_line(script, Command::Spawn(character, state, position, instance_name, animation));
    Ok(false)
}

fn if_line(lexer: &mut Lexer, script: &mut Script, Ghost(ts): Ghost<Tokens>, Ghost(p): Ghost<int>) -> (r: Result<bool, (ParserError, Token)>)
    requires
        at_stream(*old(lexer), ts, p),
        old(script).parsed_wf(),
    ensures
        final(lexer).chars@ == old(lexer).chars@,
        at_stream(*final(lexer), ts, crate::grammar::line_if(ts, p).1),
        line_effect(*old(script), *final(script), crate::grammar::line_if(ts, p).0, r),
{
    let flag = FlagName(get_ident(lexer, Ghost(ts), Ghost(p))?);
    let label = Label(get_ident(lexer, Ghost(ts), Ghost(p + 1))?);
    push_line(script, Command::If(flag, label));
    Ok(false)
}

fn named_line(lexer: &mut Lexer, script: &mut Script, keyword: &String, Ghost(ts): Ghost<Tokens>, Ghost(p): Ghost<int>) -> (r: Result<bool, (ParserError, Token)>)
    requires
        at_stream(*old(lexer), ts, p),
        old(script).parsed_wf(),
    ensures
        final(lexer).chars@ == old(lexer).chars@,
        at_stream(*final(lexer), ts, crate::grammar::line_named(ts, p, keyword@).1),
        line_effect(*old(script), *final(script), crate::grammar::line_named(ts, p, keyword@).0, r),
{
    let name = get_ident(lexer, Ghost(ts), Ghost(p))?;
    let command = if is_word(keyword, "flag") {
        Command::Flag(FlagName(name))
    } else if is_word(keyword, "unflag") {
        Command::Unflag(FlagName(name))
    } else {
        Command::Jump(Label(name))
    };
    push_line(script, command);
    Ok(false)
}

fn instance_line(lexer: &mut Lexer, script: &mut Script, keyword: &String, Ghost(ts): Ghost<Tokens>, Ghost(p): Ghost<int>) -> (r: Result<bool, (ParserError, Token)>)
    requires
        at_stream(*old(lexer), ts, p),
        old(script).parsed_wf(),
    ensures
        final(lexer).chars@ == old(lexer).chars@,
        at_stream(*final(lexer), ts, crate::grammar::line_instance(ts, p, keyword@).1),
        line_effect(*old(script), *final(script), crate::grammar::line_instance(ts, p, keyword@).0, r),
{
    let instance = InstanceName(get_string(lexer, Ghost(ts), Ghost(p))?);
    let animation = animation(lexer, true, Ghost(ts), Ghost(p + 1))?;
    let command = if is_word(keyword, "kill") {
        Command::Kill(instance, animation)
    } else if is_word(keyword, "show") {
        Command::Show(instance, animation)
    } else {
        Command::Hide(instance, animation)
    };
    push_line(script, command);
    Ok(false)
}

fn path_line(lexer: &mut Lexer, script: &mut Script, keyword: &String, Ghost(ts): Ghost<Tokens>, Ghost(p): Ghost<int>) -> (r: Result<bool, (ParserError, Token)>)
    requires
        at_stream(*old(lexer), ts, p),
        old(script).parsed_wf(),
    ensures
        final(lexer).chars@ == old(lexer).chars@,
        at_stream(*final(lexer), ts, crate::grammar::line_path(ts, p, keyword@).1),
        line_effect(*old(script), *final(script), crate::grammar::line_path(ts, p, keyword@).0, r),
{
    let path = get_string(lexer, Ghost(ts), Ghost(p))?;
    let command = if is_word(keyword, "stage") {
        Command::Stage(path)
    } else if is_word(keyword, "music") {
        Command::Music(path)
    } else {
        Command::Sound(path)
    };
    push_line(script, command);
    Ok(false)
}

/// Parses one line: a dialogue, a directive, or nothing. `Ok(true)` once the
/// input is over; an error comes with the token up to which to skip.
pub fn parse_command(lexer: &mut Lexer, script: &mut Script, Ghost(ts): Ghost<Tokens>, Ghost(i): Ghost<int>) -> (r: Result<bool, (ParserError, Token)>)
    requires
        at_stream(*old(lexer), ts, i),
        old(script).parsed_wf(),
    ensures
        final(lexer).chars@ == old(lexer).chars@,
        at_stream(*final(lexer), ts, parse_line(ts, i).1),
        parse_line(ts, i).0 is End || parse_line(ts, i).1 > i,
        line_effect(*old(script), *final(script), parse_line(ts, i).0, r),
{
    proof {
        crate::grammar::lemma_line_forward(ts, i);
    }
    let initial = match get_any(lexer, Ghost(ts), Ghost(i))? {
        None => {
            return Ok(true);
        },
        Some(t) => t,
    };
    let ghost p = i + 1;
    match initial {
        Token::Terminator => Ok(false),
        Token::Identifier(w) => {
            if is_word(&w, "change") {
                change_line(lexer, script, Ghost(ts), Ghost(p))
            } else if is_word(&w, "diverge") {
                diverge_line(lexer, script, Ghost(ts), Ghost(p))
            } else if is_word(&w, "label") {
                label_line(lexer, script, Ghost(ts), Ghost(p))
            } else if is_word(&w, "position") {
                position_line(lexer, script, Ghost(ts), Ghost(p))
            } else if is_word(&w, "spawn") {
                spawn_line(lexer, script, Ghost(ts), Ghost(p))
            } else if is_word(&w, "if") {
                if_line(lexer, script, Ghost(ts), Ghost(p))
            } else if is_word(&w, "pause") {
                push_line(script, Command::Pause);
                Ok(false)
            } else if is_word(&w, "flag") || is_word(&w, "unflag") || is_word(&w, "jump") {
                named_line(lexer, script, &w, Ghost(ts), Ghost(p))
            } else if is_word(&w, "kill") || is_word(&w, "show") || is_word(&w, "hide") {
                instance_line(lexer, script, &w, Ghost(ts), Ghost(p))
            } else if is_word(&w, "stage") || is_word(&w, "music") || is_word(&w, "sound") {
                path_line(lexer, script, &w, Ghost(ts), Ghost(p))
            } else {
                Err((ParserError::InvalidCommand, Token::Terminator))
            }
        },
        Token::String(string) => match get_any(lexer, Ghost(ts), Ghost(p))? {
            Some(Token::Terminator) => {
                push_line(script, Command::Dialogue(None, string));
                Ok(false)
            },
            Some(Token::String(dialogue)) => {
                match get_any(lexer, Ghost(ts), Ghost(p + 1))? {
                    Some(Token::Terminator) => {},
                    _ => {
                        return Err((ParserError::Expected(Token::Terminator), Token::Terminator));
                    },
                }
                push_line(script, Command::Dialogue(Some(CharacterName(string)), dialogue));
                Ok(false)
            },
            _ => Err((ParserError::Expected(Token::Terminator), Token::Terminator)),
        },
        Token::ScopeOpen => Err((ParserError::UnexpectedToken, Token::ScopeClose)),
        _ => Err((ParserError::UnexpectedToken, Token::Terminator)),
    }
}


/// The label targets that a parse gathered, as the script's label table gives them.
pub open spec fn label_target(labels: Map<Seq<char>, int>, n: Seq<char>) -> Option<Target> {
    if labels.contains_key(n) {
        Some(Target(labels[n] as usize))
    } else {
        None
    }
}

pub open spec fn commands_view(cs: Seq<Command>) -> Seq<CommandV> {
    cs.map_values(|c: Command| c@)
}

/// Parses a whole script: the commands and labels of the grammar over the
/// token stream of `string`. Every line that fails is skipped up to its
/// recovery token and its error kept; the script comes only where no line failed.
pub fn parse(string: &str) -> (r: Result<Script, Vec<ParserError>>)
    ensures
        match r {
            Ok(script) => {
                &&& parsed(stream(string@, start_state())).errors.len() == 0
                &&& commands_view(script.commands@) == parsed(stream(string@, start_state())).commands
                &&& forall|n: Seq<char>| #[trigger] crate::table::lookup(script.labels@, n) == label_target(parsed(stream(string@, start_state())).labels, n)
                &&& script.wf()
                &&& script.parsed_wf()
                &&& script.animations.is_builtin()
                &&& script.images@.len() == 0
                &&& script.audio@.len() == 0
                &&& script.characters.0@.len() == 0
            },
            Err(errors) => {
                &&& parsed(stream(string@, start_state())).errors.len() > 0
                &&& errors@ == parsed(stream(string@, start_state())).errors
            },
        },
{
    let mut errors: Vec<ParserError> = Vec::new();
    let mut script = Script::new();
    let mut lexer = Lexer::new(string);
    let ghost ts = stream(string@, start_state());
    let ghost s0 = script;
    let ghost mut pos: int = 0;
    let ghost mut labels: Map<Seq<char>, int> = Map::empty();
    assert(ts.subrange(0, ts.len() as int) =~= ts);
    assert(commands_view(script.commands@) =~= Seq::<CommandV>::empty());
    assert(errors@ =~= Seq::<ParserError>::empty());
    loop
        invariant
            at_stream(lexer, ts, pos),
            ts == stream(string@, start_state()),
            script.parsed_wf(),
            script.characters == s0.characters,
            script.images == s0.images,
            script.audio == s0.audio,
            script.animations == s0.animations,
            s0.images@.len() == 0,
            s0.audio@.len() == 0,
            s0.characters.0@.len() == 0,
            s0.animations.is_builtin(),
            parsed(ts) == parse_from(ts, pos, Parsed { commands: commands_view(script.commands@), labels, errors: errors@ }),
            forall|n: Seq<char>| #[trigger] crate::table::lookup(script.labels@, n) == label_target(labels, n),
        ensures
            parsed(ts) == (Parsed { commands: commands_view(script.commands@), labels, errors: errors@ }),
        decreases ts.len() - pos,
    {
        let ghost acc = Parsed { commands: commands_view(script.commands@), labels, errors: errors@ };
        let ghost before = script;
        let ghost (line, j) = parse_line(ts, pos);
        match parse_command(&mut lexer, &mut script, Ghost(ts), Ghost(pos)) {
            Ok(true) => {
                assert(parsed(ts) == acc);
                break;
            },
            Ok(false) => {
                proof {
                    match line {
                        Line::Push(c) => {
                            assert(commands_view(script.commands@) =~= commands_view(before.commands@).push(c));
                        },
                        Line::Label(l) => {
                            assert forall|n: Seq<char>| #[trigger] crate::table::lookup(script.labels@, n) == label_target(labels.insert(l, before.commands@.len() as int), n) by {}
                            labels = labels.insert(l, before.commands@.len() as int);
                        },
                        _ => {},
                    }
                    pos = j;
                }
            },
            Err((error, target)) => {
                let ghost k = skip(ts, j, target);
                proof {
                    crate::grammar::lemma_skip_shift(ts, j, 0, target);
                    crate::grammar::lemma_skip_forward(ts, j, target);
                }
                lexer.skip_take(target);
                assert(ts.subrange(j, ts.len() as int).subrange(k - j, ts.len() - j) =~= ts.subrange(k, ts.len() as int));
                errors.push(error);
                proof {
                    pos = k;
                }
            },
        }
    }
    if errors.len() == 0 {
        assert(script.characters.wf());
        assert(crate::sizes_wf(script.images@));
        Ok(script)
    } else {
        Err(errors)
    }
}

} // verus!
