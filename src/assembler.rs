use vstd::prelude::*;
use crate::table::{mnemonic_of, base_encoding, lookup_mnemonic};
use crate::text::{
    parse_number, trimmed, code_part, split_on, views, chars_of, parse_digits, split, strip_comment,
    trim_chars, string_of, lower_of, lowercase, replace_all, without_returns, collapse_gaps,
};

verus! {

/// How a token is read.
#[derive(Clone, Copy, Debug, PartialEq, Eq, Structural)]
pub enum TokenKind {
    Instruction,
    Label,
    Parameter,
}

/// A mnemonic is an instruction; anything else that is not a non-negative
/// integer is a label; the rest is a numeric parameter.
pub open spec fn token_kind(t: Seq<char>) -> TokenKind {
    if mnemonic_of(t) is Some {
        TokenKind::Instruction
    } else if parse_number(t) is None {
        TokenKind::Label
    } else {
        TokenKind::Parameter
    }
}

/// A classified token.
#[derive(Debug)]
pub struct Token {
    pub kind: TokenKind,
    pub value: String,
}

impl Token {
    /// Classifies `token`.
    pub fn new(token: String) -> (r: Self)
        ensures
            r.kind == token_kind(token@),
            r.value@ == token@,
    {
        let cs = chars_of(token.as_str());
        let kind = if lookup_mnemonic(&cs).is_some() {
            TokenKind::Instruction
        } else if parse_digits(&cs).is_none() {
            TokenKind::Label
        } else {
            TokenKind::Parameter
        };
        Token { kind, value: token }
    }
}

/// The texts of a sequence of tokens.
pub open spec fn token_texts(ts: Seq<Token>) -> Seq<Seq<char>> {
    ts.map_values(|t: Token| t.value@)
}

/// A line of source that holds an instruction.
pub struct Line {
    pub text: String,
    pub index: usize,
    pub tokens: Vec<Token>,
}

/// A source line with its comment cut off and its ends trimmed.
pub open spec fn clean(l: Seq<char>) -> Seq<char> {
    trimmed(code_part(l))
}

/// The non-empty members of `ls`, in order.
pub open spec fn keep_nonempty(ls: Seq<Seq<char>>) -> Seq<Seq<char>>
    decreases ls.len(),
{
    if ls.len() == 0 {
        Seq::empty()
    } else {
        let r = keep_nonempty(ls.drop_last());
        if ls.last().len() > 0 {
            r.push(ls.last())
        } else {
            r
        }
    }
}

/// The lines of `text` that hold an instruction, cleaned; a line's position
/// here is its memory address.
pub open spec fn source_lines(text: Seq<char>) -> Seq<Seq<char>> {
    keep_nonempty(split_on(text, '\n').map_values(|l: Seq<char>| clean(l)))
}

/// The tokens of a line: its pieces between single spaces.
pub open spec fn line_tokens(line: Seq<char>) -> Seq<Seq<char>> {
    split_on(line, ' ')
}

/// Whether every token of `ts` carries the kind its text has.
pub open spec fn classified(ts: Seq<Token>) -> bool {
    forall|k: int| 0 <= k < ts.len() ==> (#[trigger] ts[k]).kind == token_kind(ts[k].value@)
}

/// Whether `line` is the line at address `i`, split into classified tokens.
pub open spec fn line_fits(line: Line, i: int) -> bool {
    &&& line.index == i
    &&& token_texts(line.tokens@) == line_tokens(line.text@)
    &&& classified(line.tokens@)
}

/// The texts of a sequence of lines.
pub open spec fn line_texts(lines: Seq<Line>) -> Seq<Seq<char>> {
    lines.map_values(|l: Line| l.text@)
}

/// The operand of an instruction, as written or once resolved.
pub enum Operand {
    Label(Seq<char>),
    Number(nat),
}

/// A parsed instruction as a mathematical value.
pub struct Parsed {
    pub mnemonic: Seq<char>,
    pub label: Option<Seq<char>>,
    pub parameter: Option<Operand>,
}

/// A parameter token: a number if it reads as one, else a label reference.
pub open spec fn operand_of(t: Seq<char>) -> Operand {
    match parse_number(t) {
        Some(v) => Operand::Number(v),
        None => Operand::Label(t),
    }
}

/// The parameter of a line: its third token, or its second when its first is
/// a mnemonic.
pub open spec fn parameter_of(ts: Seq<Seq<char>>) -> Option<Operand> {
    if ts.len() >= 3 {
        Some(operand_of(ts[2]))
    } else if ts.len() == 2 && mnemonic_of(ts[0]) is Some {
        Some(operand_of(ts[1]))
    } else {
        None
    }
}

/// A line of one to three tokens: `[label] mnemonic [parameter]`. None for a
/// malformed line.
pub open spec fn parse_line(ts: Seq<Seq<char>>) -> Option<Parsed> {
    if ts.len() == 0 || ts.len() > 3 {
        None
    } else if token_kind(ts[0]) == TokenKind::Label {
        if ts.len() >= 2 {
            Some(Parsed { mnemonic: ts[1], label: Some(ts[0]), parameter: parameter_of(ts) })
        } else {
            None
        }
    } else if token_kind(ts[0]) == TokenKind::Instruction {
        Some(Parsed { mnemonic: ts[0], label: None, parameter: parameter_of(ts) })
    } else {
        None
    }
}

/// Every line parsed, or the address of the first malformed one.
pub open spec fn parse_all(lines: Seq<Seq<char>>) -> Result<Seq<Parsed>, int>
    decreases lines.len(),
{
    if lines.len() == 0 {
        Ok(Seq::empty())
    } else {
        match parse_all(lines.drop_last()) {
            Err(i) => Err(i),
            Ok(ps) => match parse_line(line_tokens(lines.last())) {
                Some(p) => Ok(ps.push(p)),
                None => Err(lines.len() - 1),
            },
        }
    }
}

/// Whether the instruction at `j` defines a label that an earlier one defines too.
pub open spec fn redefines(ps: Seq<Parsed>, j: int) -> bool {
    ps[j].label is Some && exists|i: int| 0 <= i < j && #[trigger] ps[i].label == ps[j].label
}

/// The address of the first instruction whose label an earlier one defines.
pub open spec fn first_duplicate(ps: Seq<Parsed>) -> Option<int>
    decreases ps.len(),
{
    if ps.len() == 0 {
        None
    } else {
        match first_duplicate(ps.drop_last()) {
            Some(j) => Some(j),
            None => if redefines(ps, ps.len() - 1) {
                Some(ps.len() - 1)
            } else {
                None
            },
        }
    }
}

/// The first address at or after `k` whose instruction defines label `name`.
pub open spec fn definition(ps: Seq<Parsed>, name: Seq<char>, k: int) -> Option<int>
    decreases ps.len() - k,
{
    if k < 0 || k >= ps.len() {
        None
    } else if ps[k].label == Some(name) {
        Some(k)
    } else {
        definition(ps, name, k + 1)
    }
}

/// `p` with a label reference replaced by the address that defines the label,
/// where one does.
pub open spec fn resolve(ps: Seq<Parsed>, p: Parsed) -> Parsed {
    match p.parameter {
        Some(Operand::Label(n)) => match definition(ps, n, 0) {
            Some(k) => Parsed { parameter: Some(Operand::Number(k as nat)), ..p },
            None => p,
        },
        _ => p,
    }
}

/// Why a program does not assemble.
#[derive(Clone, Copy, Debug, PartialEq, Eq, Structural)]
pub enum ErrorKind {
    /// A line of the wrong shape.
    MalformedLine,
    /// A label defined a second time.
    DuplicateLabel,
    /// A word where a mnemonic must stand.
    UnknownMnemonic,
    /// A reference to a label that no line defines.
    UnresolvedLabel,
    /// A mnemonic's base and its operand sum past 999.
    WordOutOfRange,
    /// A normalising pattern did not compile.
    InvalidPattern,
}

/// The machine word of a resolved instruction.
pub open spec fn encode(p: Parsed) -> Result<nat, ErrorKind> {
    match mnemonic_of(p.mnemonic) {
        None => Err(ErrorKind::UnknownMnemonic),
        Some(m) => match p.parameter {
            None => Ok(base_encoding(m)),
            Some(Operand::Label(_)) => Err(ErrorKind::UnresolvedLabel),
            Some(Operand::Number(v)) => if base_encoding(m) + v <= 999 {
                Ok(base_encoding(m) + v)
            } else {
                Err(ErrorKind::WordOutOfRange)
            },
        },
    }
}

/// Every label reference in `ps` replaced by the address that defines it.
pub open spec fn resolved(ps: Seq<Parsed>) -> Seq<Parsed> {
    ps.map_values(|p: Parsed| resolve(ps, p))
}

/// The words of `ps`, or the first failure and its address.
pub open spec fn encode_all(ps: Seq<Parsed>) -> Result<Seq<nat>, (ErrorKind, int)>
    decreases ps.len(),
{
    if ps.len() == 0 {
        Ok(Seq::empty())
    } else {
        match encode_all(ps.drop_last()) {
            Err(e) => Err(e),
            Ok(ws) => match encode(ps.last()) {
                Ok(w) => Ok(ws.push(w)),
                Err(k) => Err((k, ps.len() - 1)),
            },
        }
    }
}

/// The words that the cleaned lines `lines` assemble to, or the failure and
/// the address of the line it concerns.
pub open spec fn assemble_lines(lines: Seq<Seq<char>>) -> Result<Seq<nat>, (ErrorKind, int)> {
    match parse_all(lines) {
        Err(i) => Err((ErrorKind::MalformedLine, i)),
        Ok(ps) => match first_duplicate(ps) {
            Some(j) => Err((ErrorKind::DuplicateLabel, j)),
            None => encode_all(resolved(ps)),
        },
    }
}

/// The words that normalised source text assembles to.
pub open spec fn assembly(text: Seq<char>) -> Result<Seq<nat>, (ErrorKind, int)> {
    assemble_lines(source_lines(text))
}

/// A failure to assemble: its kind, the address of the line concerned and
/// that line's text.
#[derive(Debug)]
pub struct AssembleError {
    pub kind: ErrorKind,
    pub line: usize,
    pub text: String,
}

/// Whether the machine words `v` are the numbers `ws`.
pub open spec fn words_match(v: Seq<usize>, ws: Seq<nat>) -> bool {
    v.len() == ws.len() && forall|i: int| 0 <= i < ws.len() ==> v[i] as nat == #[trigger] ws[i]
}

/// Whether `r` is what `text` assembles to: the same words, or the same
/// failure reported with its line.
pub open spec fn outcome_matches(r: Result<Vec<usize>, AssembleError>, text: Seq<char>) -> bool {
    match (r, assembly(text)) {
        (Ok(v), Ok(ws)) => words_match(v@, ws),
        (Err(e), Err((k, i))) => e.kind == k && e.line == i && e.text@ == source_lines(text)[i],
        _ => false,
    }
}

/// An operand as written in a parsed instruction.
pub enum InstructionParameter {
    Label(String),
    Number(usize),
}

/// An instruction parsed from its line.
pub struct ParsedInstruction {
    pub index: usize,
    pub instruction: String,
    pub parameter: Option<InstructionParameter>,
    pub label: Option<String>,
}

/// The text of an optional label.
pub open spec fn label_view(l: Option<String>) -> Option<Seq<char>> {
    match l {
        Some(s) => Some(s@),
        None => None,
    }
}

/// The value of an optional operand.
pub open spec fn parameter_view(p: Option<InstructionParameter>) -> Option<Operand> {
    match p {
        Some(InstructionParameter::Label(s)) => Some(Operand::Label(s@)),
        Some(InstructionParameter::Number(v)) => Some(Operand::Number(v as nat)),
        None => None,
    }
}

/// A parsed instruction as a mathematical value.
pub open spec fn parsed_view(p: ParsedInstruction) -> Parsed {
    Parsed { mnemonic: p.instruction@, label: label_view(p.label), parameter: parameter_view(p.parameter) }
}

/// The values of a sequence of parsed instructions.
pub open spec fn parsed_views(ps: Seq<ParsedInstruction>) -> Seq<Parsed> {
    ps.map_values(|p: ParsedInstruction| parsed_view(p))
}

/// Whether each instruction of `ps` records its own address.
pub open spec fn indexed(ps: Seq<ParsedInstruction>) -> bool {
    forall|i: int| 0 <= i < ps.len() ==> (#[trigger] ps[i]).index == i
}

fn copy_label(l: &Option<String>) -> (r: Option<String>)
    ensures
        label_view(r) == label_view(*l),
{
    match l {
        Some(s) => Some(s.clone()),
        None => None,
    }
}

fn same_label(a: &Option<String>, b: &Option<String>) -> (r: bool)
    ensures
        r == (label_view(*a) == label_view(*b)),
{
    match (a, b) {
        (Some(x), Some(y)) => x.eq(y),
        (None, None) => true,
        _ => false,
    }
}

fn make_operand(t: &String) -> (r: InstructionParameter)
    ensures
        parameter_view(Some(r)) == Some(operand_of(t@)),
{
    let cs = chars_of(t.as_str());
    match parse_digits(&cs) {
        Some(v) => InstructionParameter::Number(v),
        None => InstructionParameter::Label(t.clone()),
    }
}

/// Splits a cleaned line into classified tokens at single spaces.
fn tokenise(line: &Vec<char>) -> (r: Vec<Token>)
    ensures
        token_texts(r@) == line_tokens(line@),
        classified(r@),
{
    let pieces = split(line, ' ');
    let mut r: Vec<Token> = Vec::new();
    let mut k: usize = 0;
    while k < pieces.len()
        invariant
            k <= pieces@.len(),
            views(pieces@) == line_tokens(line@),
            token_texts(r@) == views(pieces@).take(k as int),
            classified(r@),
        decreases pieces@.len() - k,
    {
        let t = Token::new(string_of(&pieces[k]));
        let ghost tv = t.value@;
        let ghost before = r@;
        r.push(t);
        proof {
            assert(token_texts(r@) =~= token_texts(before).push(tv));
            assert(views(pieces@).take(k + 1) =~= views(pieces@).take(k as int).push(tv));
        }
        k += 1;
    }
    proof {
        assert(views(pieces@).take(k as int) =~= views(pieces@));
    }
    r
}

/// Splits normalised text into the lines that hold an instruction, each with
/// its address and its classified tokens.
fn line_and_tokenise(text: &Vec<char>) -> (r: Vec<Line>)
    ensures
        line_texts(r@) == source_lines(text@),
        forall|i: int| 0 <= i < r@.len() ==> line_fits(#[trigger] r@[i], i),
{
    let raw = split(text, '\n');
    let ghost cl = views(raw@).map_values(|l: Seq<char>| clean(l));
    let mut lines: Vec<Line> = Vec::new();
    let mut k: usize = 0;
    while k < raw.len()
        invariant
            k <= raw@.len(),
            cl == views(raw@).map_values(|l: Seq<char>| clean(l)),
            views(raw@) == split_on(text@, '\n'),
            line_texts(lines@) == keep_nonempty(cl.take(k as int)),
            forall|i: int| 0 <= i < lines@.len() ==> line_fits(#[trigger] lines@[i], i),
        decreases raw@.len() - k,
    {
        let code = strip_comment(&raw[k]);
        let c = trim_chars(&code);
        proof {
            assert(cl.take(k + 1).drop_last() =~= cl.take(k as int));
            assert(cl[k as int] == c@);
        }
        if c.len() > 0 {
            let tokens = tokenise(&c);
            let line = Line { text: string_of(&c), index: lines.len(), tokens };
            let ghost before = lines@;
            lines.push(line);
            proof {
                assert(line_texts(lines@) =~= line_texts(before).push(c@));
                assert(lines@[lines@.len() - 1] == line);
            }
        }
        k += 1;
    }
    proof {
        assert(cl.take(k as int) =~= cl);
    }
    lines
}

/// Parses one line: `[label] mnemonic [parameter]`.
fn parse_line_tokens(line: &Line) -> (r: Option<ParsedInstruction>)
    requires
        token_texts(line.tokens@) == line_tokens(line.text@),
        classified(line.tokens@),
    ensures
        match parse_line(line_tokens(line.text@)) {
            Some(p) => r matches Some(q) && parsed_view(q) == p && q.index == line.index,
            None => r is None,
        },
{
    let ts = &line.tokens;
    let n = ts.len();
    let ghost tt = token_texts(ts@);
    if n == 0 || n > 3 {
        return None;
    }
    proof {
        assert(forall|k: int| 0 <= k < n ==> tt[k] == (#[trigger] ts@[k]).value@);
    }
    let parameter = if n >= 3 {
        Some(make_operand(&ts[2].value))
    } else if n == 2 && ts[0].kind == TokenKind::Instruction {
        Some(make_operand(&ts[1].value))
    } else {
        None
    };
    assert(parameter_view(parameter) == parameter_of(tt));
    match ts[0].kind {
        TokenKind::Label => {
            if n >= 2 {
                Some(
                    ParsedInstruction {
                        index: line.index,
                        instruction: ts[1].value.clone(),
                        parameter,
                        label: Some(ts[0].value.clone()),
                    },
                )
            } else {
                None
            }
        },
        TokenKind::Instruction => Some(
            ParsedInstruction {
                index: line.index,
                instruction: ts[0].value.clone(),
                parameter,
                label: None,
            },
        ),
        TokenKind::Parameter => None,
    }
}

/// Parses every line, or reports the address of the first malformed one.
fn parse_instructions(lines: &Vec<Line>) -> (r: Result<Vec<ParsedInstruction>, usize>)
    requires
        forall|i: int| 0 <= i < lines@.len() ==> line_fits(#[trigger] lines@[i], i),
    ensures
        match parse_all(line_texts(lines@)) {
            Ok(ps) => r matches Ok(v) && parsed_views(v@) == ps && indexed(v@),
            Err(i) => r == Err::<Vec<ParsedInstruction>, usize>(i as usize),
        },
{
    let ghost lt = line_texts(lines@);
    let mut out: Vec<ParsedInstruction> = Vec::new();
    let mut k: usize = 0;
    proof {
        assert(lt.take(0) =~= Seq::<Seq<char>>::empty());
        assert(parsed_views(out@) =~= Seq::<Parsed>::empty());
    }
    while k < lines.len()
        invariant
            k <= lines@.len(),
            lt == line_texts(lines@),
            forall|i: int| 0 <= i < lines@.len() ==> line_fits(#[trigger] lines@[i], i),
            parse_all(lt.take(k as int)) == Ok::<Seq<Parsed>, int>(parsed_views(out@)),
            indexed(out@),
            out@.len() == k,
        decreases lines@.len() - k,
    {
        proof {
            assert(lt.take(k + 1).drop_last() =~= lt.take(k as int));
            assert(lt.take(k + 1).last() == lines@[k as int].text@);
            assert(line_fits(lines@[k as int], k as int));
        }
        match parse_line_tokens(&lines[k]) {
            Some(p) => {
                let ghost before = out@;
                out.push(p);
                proof {
                    assert(parsed_views(out@) =~= parsed_views(before).push(parsed_view(p)));
                }
            },
            None => {
                proof {
                    lemma_parse_all_prefix_err(lt, k as int + 1, k as int);
                }
                return Err(k);
            },
        }
        k += 1;
    }
    proof {
        assert(lt.take(k as int) =~= lt);
    }
    Ok(out)
}

proof fn lemma_parse_all_prefix_err(lines: Seq<Seq<char>>, k: int, e: int)
    requires
        0 < k <= lines.len(),
        parse_all(lines.take(k)) == Err::<Seq<Parsed>, int>(e),
    ensures
        parse_all(lines) == Err::<Seq<Parsed>, int>(e),
    decreases lines.len() - k,
{
    if k < lines.len() {
        assert(lines.take(k + 1).drop_last() =~= lines.take(k));
        lemma_parse_all_prefix_err(lines, k + 1, e);
    } else {
        assert(lines.take(k) =~= lines);
    }
}

/// The address of the first instruction whose label an earlier instruction
/// defines too.
fn find_duplicate_label(ps: &Vec<ParsedInstruction>) -> (r: Option<usize>)
    ensures
        match first_duplicate(parsed_views(ps@)) {
            Some(j) => r == Some(j as usize),
            None => r is None,
        },
{
    let ghost pv = parsed_views(ps@);
    let mut j: usize = 0;
    proof {
        assert(pv.take(0) =~= Seq::<Parsed>::empty());
    }
    while j < ps.len()
        invariant
            j <= ps@.len(),
            pv == parsed_views(ps@),
            first_duplicate(pv.take(j as int)) is None,
        decreases ps@.len() - j,
    {
        proof {
            assert(pv.take(j + 1).drop_last() =~= pv.take(j as int));
        }
        if ps[j].label.is_some() {
            let mut i: usize = 0;
            while i < j
                invariant
                    i <= j < ps@.len(),
                    pv == parsed_views(ps@),
                    pv[j as int].label is Some,
                    first_duplicate(pv.take(j as int)) is None,
                    pv.take(j + 1).drop_last() == pv.take(j as int),
                    forall|k: int| 0 <= k < i ==> pv[k].label != pv[j as int].label,
                decreases j - i,
            {
                if same_label(&ps[i].label, &ps[j].label) {
                    proof {
                        let q = pv.take(j + 1);
                        assert(q[i as int].label == q[j as int].label);
                        assert(redefines(q, j as int));
                        assert(first_duplicate(q) == Some(j as int));
                        lemma_first_duplicate_prefix(pv, j + 1, j as int);
                    }
                    return Some(j);
                }
                i += 1;
            }
            proof {
                let q = pv.take(j + 1);
                assert forall|k: int| 0 <= k < j implies #[trigger] q[k].label != q[j as int].label by {
                    assert(q[k] == pv[k]);
                }
                assert(!redefines(q, j as int));
            }
        } else {
            proof {
                assert(!redefines(pv.take(j + 1), j as int));
            }
        }
        j += 1;
    }
    proof {
        assert(pv.take(j as int) =~= pv);
    }
    None
}

/// The first address whose instruction defines `name`.
fn find_definition(ps: &Vec<ParsedInstruction>, name: &String) -> (r: Option<usize>)
    ensures
        match definition(parsed_views(ps@), name@, 0) {
            Some(k) => r == Some(k as usize),
            None => r is None,
        },
{
    let ghost pv = parsed_views(ps@);
    let mut k: usize = 0;
    while k < ps.len()
        invariant
            k <= ps@.len(),
            pv == parsed_views(ps@),
            definition(pv, name@, k as int) == definition(pv, name@, 0),
        decreases ps@.len() - k,
    {
        let target = Some(name.clone());
        if same_label(&ps[k].label, &target) {
            return Some(k);
        }
        k += 1;
    }
    None
}

/// Replaces each label reference by the address of the instruction that
/// defines that label, where one does; a reference to an undefined label stays.
fn parse_labels(instructions: &mut Vec<ParsedInstruction>)
    requires
        indexed(old(instructions)@),
    ensures
        parsed_views(final(instructions)@) == resolved(parsed_views(old(instructions)@)),
        indexed(final(instructions)@),
{
    let ghost pv = parsed_views(instructions@);
    let n = instructions.len();
    let mut j: usize = 0;
    while j < n
        invariant
            j <= n == instructions@.len(),
            indexed(instructions@),
            forall|k: int| 0 <= k < n ==> (#[trigger] parsed_views(instructions@)[k]).label == pv[k].label,
            forall|k: int| 0 <= k < n ==> #[trigger] parsed_views(instructions@)[k] == if k < j {
                resolve(pv, pv[k])
            } else {
                pv[k]
            },
            pv.len() == n,
        decreases n - j,
    {
        let reference: Option<String> = match &instructions[j].parameter {
            Some(InstructionParameter::Label(name)) => Some(name.clone()),
            _ => None,
        };
        let ghost cur = parsed_views(instructions@);
        proof {
            assert(cur[j as int] == pv[j as int]);
        }
        match reference {
            Some(name) => {
                proof {
                    assert(pv[j as int].parameter == Some(Operand::Label(name@)));
                    lemma_definition_same_labels(cur, pv, name@, 0);
                    lemma_definition_bounds(pv, name@, 0);
                }
                match find_definition(instructions, &name) {
                    Some(k) => {
                        let p = ParsedInstruction {
                            index: instructions[j].index,
                            instruction: instructions[j].instruction.clone(),
                            parameter: Some(InstructionParameter::Number(k)),
                            label: copy_label(&instructions[j].label),
                        };
                        proof {
                            assert(parsed_view(p) == resolve(pv, pv[j as int]));
                        }
                        instructions.set(j, p);
                        proof {
                            assert(parsed_views(instructions@) =~= cur.update(j as int, resolve(pv, pv[j as int])));
                        }
                    },
                    None => {},
                }
            },
            None => {
                proof {
                    assert(!(pv[j as int].parameter matches Some(Operand::Label(_))));
                }
            },
        }
        proof {
            assert(parsed_views(instructions@)[j as int] == resolve(pv, pv[j as int]));
        }
        j += 1;
    }
    proof {
        assert(parsed_views(instructions@) =~= resolved(pv));
    }
}

proof fn lemma_first_duplicate_prefix(ps: Seq<Parsed>, k: int, e: int)
    requires
        0 < k <= ps.len(),
        first_duplicate(ps.take(k)) == Some(e),
    ensures
        first_duplicate(ps) == Some(e),
    decreases ps.len() - k,
{
    if k < ps.len() {
        assert(ps.take(k + 1).drop_last() =~= ps.take(k));
        lemma_first_duplicate_prefix(ps, k + 1, e);
    } else {
        assert(ps.take(k) =~= ps);
    }
}

proof fn lemma_definition_bounds(ps: Seq<Parsed>, name: Seq<char>, k: int)
    requires
        0 <= k,
    ensures
        definition(ps, name, k) matches Some(d) ==> k <= d < ps.len(),
    decreases ps.len() - k,
{
    if 0 <= k < ps.len() {
        lemma_definition_bounds(ps, name, k + 1);
    }
}

proof fn lemma_definition_same_labels(a: Seq<Parsed>, b: Seq<Parsed>, name: Seq<char>, k: int)
    requires
        a.len() == b.len(),
        forall|i: int| 0 <= i < a.len() ==> (#[trigger] a[i]).label == b[i].label,
    ensures
        definition(a, name, k) == definition(b, name, k),
    decreases a.len() - k,
{
    if 0 <= k < a.len() {
        lemma_definition_same_labels(a, b, name, k + 1);
    }
}

/// The word of one resolved instruction.
fn encode_instruction(p: &ParsedInstruction) -> (r: Result<usize, ErrorKind>)
    ensures
        match encode(parsed_view(*p)) {
            Ok(w) => r == Ok::<usize, ErrorKind>(w as usize) && w <= 999,
            Err(k) => r == Err::<usize, ErrorKind>(k),
        },
{
    let cs = chars_of(p.instruction.as_str());
    let m = match lookup_mnemonic(&cs) {
        Some(m) => m,
        None => {
            return Err(ErrorKind::UnknownMnemonic);
        },
    };
    let base = m.base();
    match &p.parameter {
        None => Ok(base),
        Some(InstructionParameter::Label(_)) => Err(ErrorKind::UnresolvedLabel),
        Some(InstructionParameter::Number(v)) => {
            if *v > 999 - base {
                Err(ErrorKind::WordOutOfRange)
            } else {
                Ok(base + *v)
            }
        },
    }
}

/// The words of resolved instructions, or the first failure and its address.
fn assemble_instructions(instructions: &Vec<ParsedInstruction>) -> (r: Result<Vec<usize>, (ErrorKind, usize)>)
    ensures
        match encode_all(parsed_views(instructions@)) {
            Ok(ws) => r matches Ok(v) && words_match(v@, ws),
            Err((k, i)) => r == Err::<Vec<usize>, (ErrorKind, usize)>((k, i as usize)),
        },
{
    let ghost pv = parsed_views(instructions@);
    let mut out: Vec<usize> = Vec::new();
    let mut j: usize = 0;
    proof {
        assert(pv.take(0) =~= Seq::<Parsed>::empty());
    }
    while j < instructions.len()
        invariant
            j <= instructions@.len(),
            pv == parsed_views(instructions@),
            encode_all(pv.take(j as int)) matches Ok(ws) && words_match(out@, ws),
        decreases instructions@.len() - j,
    {
        proof {
            assert(pv.take(j + 1).drop_last() =~= pv.take(j as int));
        }
        match encode_instruction(&instructions[j]) {
            Ok(w) => {
                let ghost ws = encode_all(pv.take(j as int))->Ok_0;
                out.push(w);
                proof {
                    let ws2 = encode_all(pv.take(j + 1))->Ok_0;
                    assert(ws2 == ws.push(w as nat));
                    assert(words_match(out@, ws2));
                }
            },
            Err(k) => {
                proof {
                    lemma_encode_all_prefix_err(pv, j + 1, (k, j as int));
                }
                return Err((k, j));
            },
        }
        j += 1;
    }
    proof {
        assert(pv.take(j as int) =~= pv);
    }
    Ok(out)
}

proof fn lemma_encode_all_prefix_err(ps: Seq<Parsed>, k: int, e: (ErrorKind, int))
    requires
        0 < k <= ps.len(),
        encode_all(ps.take(k)) == Err::<Seq<nat>, (ErrorKind, int)>(e),
    ensures
        encode_all(ps) == Err::<Seq<nat>, (ErrorKind, int)>(e),
    decreases ps.len() - k,
{
    if k < ps.len() {
        assert(ps.take(k + 1).drop_last() =~= ps.take(k));
        lemma_encode_all_prefix_err(ps, k + 1, e);
    } else {
        assert(ps.take(k) =~= ps);
    }
}

fn failure(lines: &Vec<Line>, kind: ErrorKind, i: usize) -> (r: AssembleError)
    requires
        i < lines@.len(),
    ensures
        r.kind == kind,
        r.line == i,
        r.text@ == lines@[i as int].text@,
{
    AssembleError { kind, line: i, text: lines[i].text.clone() }
}

/// Assembles normalised source text into machine words, one per line that
/// holds an instruction, in order: lines are split on newlines, cut at `//`,
/// trimmed, and blank ones dropped; each is split into tokens at single
/// spaces; labels resolve to the address of the line that defines them.
pub fn assemble_source(text: &str) -> (r: Result<Vec<usize>, AssembleError>)
    ensures
        outcome_matches(r, text@),
{
    let cs = chars_of(text);
    let lines = line_and_tokenise(&cs);
    let ghost lt = line_texts(lines@);
    proof {
        lemma_parse_all_len(lt);
    }
    let mut parsed = match parse_instructions(&lines) {
        Ok(p) => p,
        Err(i) => {
            return Err(failure(&lines, ErrorKind::MalformedLine, i));
        },
    };
    match find_duplicate_label(&parsed) {
        Some(j) => {
            proof {
                lemma_first_duplicate_bounds(parsed_views(parsed@));
            }
            return Err(failure(&lines, ErrorKind::DuplicateLabel, j));
        },
        None => {},
    }
    let ghost pv = parsed_views(parsed@);
    parse_labels(&mut parsed);
    match assemble_instructions(&parsed) {
        Ok(w) => Ok(w),
        Err((k, i)) => {
            proof {
                lemma_encode_all_bounds(resolved(pv));
            }
            Err(failure(&lines, k, i))
        },
    }
}

proof fn lemma_parse_all_len(lines: Seq<Seq<char>>)
    ensures
        parse_all(lines) matches Ok(ps) ==> ps.len() == lines.len(),
        parse_all(lines) matches Err(i) ==> 0 <= i < lines.len(),
    decreases lines.len(),
{
    if lines.len() > 0 {
        lemma_parse_all_len(lines.drop_last());
    }
}

proof fn lemma_first_duplicate_bounds(ps: Seq<Parsed>)
    ensures
        first_duplicate(ps) matches Some(j) ==> 0 <= j < ps.len(),
    decreases ps.len(),
{
    if ps.len() > 0 {
        lemma_first_duplicate_bounds(ps.drop_last());
    }
}

proof fn lemma_encode_all_bounds(ps: Seq<Parsed>)
    ensures
        encode_all(ps) matches Ok(ws) ==> ws.len() == ps.len(),
        encode_all(ps) matches Err((k, i)) ==> 0 <= i < ps.len(),
    decreases ps.len(),
{
    if ps.len() > 0 {
        lemma_encode_all_bounds(ps.drop_last());
    }
}

/// `text` lower-cased, with carriage returns removed and each run of tabs,
/// form feeds and spaces collapsed to a single space.
pub open spec fn normalised(text: Seq<char>) -> Seq<char> {
    collapse_gaps(without_returns(lower_of(text)))
}

/// Lower-cases `text`, removes carriage returns and collapses each run of
/// tabs, form feeds and spaces to a single space.
pub fn sanitise(text: &str) -> (r: Result<String, AssembleError>)
    ensures
        r matches Ok(s) && s@ == normalised(text@),
{
    let lower = lowercase(text);
    let no_returns = match replace_all("[\\r]", lower.as_str(), "") {
        Ok(s) => s,
        Err(_) => {
            return Err(pattern_failure());
        },
    };
    match replace_all("[\\t\\f ]+", no_returns.as_str(), " ") {
        Ok(s) => Ok(s),
        Err(_) => Err(pattern_failure()),
    }
}

fn pattern_failure() -> (r: AssembleError)
    ensures
        r.kind == ErrorKind::InvalidPattern,
        r.line == 0,
        r.text@ == Seq::<char>::empty(),
{
    AssembleError { kind: ErrorKind::InvalidPattern, line: 0, text: String::new() }
}

/// Normalises `program` and assembles it into machine words.
pub fn assemble(program: &str) -> (r: Result<Vec<usize>, AssembleError>)
    ensures
        outcome_matches(r, normalised(program@)),
{
    let s = sanitise(program)?;
    assemble_source(s.as_str())
}

/// The word of a parsed instruction whose mnemonic is known and whose
/// parameter, if any, is a number: its base encoding plus that number.
pub open spec fn literal_word(p: Parsed) -> nat {
    let b = base_encoding(mnemonic_of(p.mnemonic)->Some_0);
    match p.parameter {
        Some(Operand::Number(v)) => b + v,
        _ => b,
    }
}

/// Whether a line is `mnemonic [number]`: no label, a known mnemonic, no
/// symbolic operand, and a word that fits in three digits.
pub open spec fn literal_line(line: Seq<char>) -> bool {
    &&& parse_line(line_tokens(line)) matches Some(p)
    &&& p.label is None
    &&& mnemonic_of(p.mnemonic) is Some
    &&& !(p.parameter matches Some(Operand::Label(_)))
    &&& literal_word(p) <= 999
}

/// Normalised text whose every instruction line is `mnemonic [number]`, with
/// no label, assembles, in source order, to each mnemonic's base encoding plus
/// its literal operand.
pub proof fn lemma_literal_program(text: Seq<char>)
    requires
        forall|i: int| 0 <= i < source_lines(text).len() ==> literal_line(#[trigger] source_lines(text)[i]),
    ensures
        assembly(text) == Ok::<Seq<nat>, (ErrorKind, int)>(
            Seq::new(
                source_lines(text).len(),
                |i: int| literal_word(parse_line(line_tokens(source_lines(text)[i]))->Some_0),
            ),
        ),
{
    lemma_literal_lines(source_lines(text));
}

proof fn lemma_literal_lines(lines: Seq<Seq<char>>)
    requires
        forall|i: int| 0 <= i < lines.len() ==> literal_line(#[trigger] lines[i]),
    ensures
        assemble_lines(lines) == Ok::<Seq<nat>, (ErrorKind, int)>(
            Seq::new(lines.len(), |i: int| literal_word(parse_line(line_tokens(lines[i]))->Some_0)),
        ),
    decreases lines.len(),
{
    let ps = Seq::new(lines.len(), |i: int| parse_line(line_tokens(lines[i]))->Some_0);
    lemma_parse_all_each(lines, ps);
    lemma_no_labels_no_duplicate(ps);
    assert(resolved(ps) =~= ps);
    lemma_encode_all_literal(ps);
    assert(Seq::new(ps.len(), |i: int| literal_word(ps[i])) =~= Seq::new(
        lines.len(),
        |i: int| literal_word(parse_line(line_tokens(lines[i]))->Some_0),
    ));
}

proof fn lemma_parse_all_each(lines: Seq<Seq<char>>, ps: Seq<Parsed>)
    requires
        ps.len() == lines.len(),
        forall|i: int| 0 <= i < lines.len() ==> parse_line(line_tokens(#[trigger] lines[i])) == Some(ps[i]),
    ensures
        parse_all(lines) == Ok::<Seq<Parsed>, int>(ps),
    decreases lines.len(),
{
    if lines.len() > 0 {
        let n = lines.len() - 1;
        assert forall|i: int| 0 <= i < n implies parse_line(line_tokens(#[trigger] lines.drop_last()[i])) == Some(ps.drop_last()[i]) by {
            assert(lines.drop_last()[i] == lines[i]);
        }
        lemma_parse_all_each(lines.drop_last(), ps.drop_last());
        assert(ps.drop_last().push(ps[n]) =~= ps);
    } else {
        assert(ps =~= Seq::<Parsed>::empty());
    }
}

proof fn lemma_no_labels_no_duplicate(ps: Seq<Parsed>)
    requires
        forall|i: int| 0 <= i < ps.len() ==> (#[trigger] ps[i]).label is None,
    ensures
        first_duplicate(ps) is None,
    decreases ps.len(),
{
    if ps.len() > 0 {
        assert forall|i: int| 0 <= i < ps.len() - 1 implies (#[trigger] ps.drop_last()[i]).label is None by {
            assert(ps.drop_last()[i] == ps[i]);
        }
        lemma_no_labels_no_duplicate(ps.drop_last());
        assert(!redefines(ps, ps.len() - 1));
    }
}

proof fn lemma_encode_all_literal(ps: Seq<Parsed>)
    requires
        forall|i: int|
            0 <= i < ps.len() ==> {
                &&& mnemonic_of((#[trigger] ps[i]).mnemonic) is Some
                &&& !(ps[i].parameter matches Some(Operand::Label(_)))
                &&& literal_word(ps[i]) <= 999
            },
    ensures
        encode_all(ps) == Ok::<Seq<nat>, (ErrorKind, int)>(Seq::new(ps.len(), |i: int| literal_word(ps[i]))),
    decreases ps.len(),
{
    if ps.len() > 0 {
        let n = ps.len() - 1;
        assert forall|i: int| 0 <= i < n implies {
            &&& mnemonic_of((#[trigger] ps.drop_last()[i]).mnemonic) is Some
            &&& !(ps.drop_last()[i].parameter matches Some(Operand::Label(_)))
            &&& literal_word(ps.drop_last()[i]) <= 999
        } by {
            assert(ps.drop_last()[i] == ps[i]);
        }
        lemma_encode_all_literal(ps.drop_last());
        assert(ps[n] == ps.last());
        assert(encode(ps[n]) == Ok::<nat, ErrorKind>(literal_word(ps[n])));
        assert(Seq::new(n as nat, |i: int| literal_word(ps.drop_last()[i])).push(literal_word(ps[n])) =~= Seq::new(
            ps.len(),
            |i: int| literal_word(ps[i]),
        ));
    } else {
        assert(Seq::new(0, |i: int| literal_word(ps[i])) =~= Seq::<nat>::empty());
    }
}

/// In normalised text whose lines parse, a reference to a label `name` that
/// exactly one line defines, at address `k`, resolves to `k`, whether the
/// definition comes before or after the reference. The referring instruction
/// then encodes to its base encoding plus `k` when its mnemonic is known and
/// the sum fits in three digits, and that is its word when the text assembles.
pub proof fn lemma_label_resolution(text: Seq<char>, name: Seq<char>, j: int, k: int)
    requires
        parse_all(source_lines(text)) matches Ok(ps) && 0 <= j < ps.len() && 0 <= k < ps.len()
            && ps[k].label == Some(name) && ps[j].parameter == Some(Operand::Label(name))
            && forall|i: int| 0 <= i < ps.len() && i != k ==> (#[trigger] ps[i]).label != Some(name),
    ensures
        parse_all(source_lines(text)) matches Ok(ps) && {
            &&& resolved(ps)[j].parameter == Some(Operand::Number(k as nat))
            &&& (mnemonic_of(ps[j].mnemonic) matches Some(m) ==> (base_encoding(m) + k <= 999 ==> encode(
                resolved(ps)[j],
            ) == Ok::<nat, ErrorKind>(base_encoding(m) + k as nat)))
            &&& (assembly(text) matches Ok(ws) ==> ws[j] == base_encoding(mnemonic_of(ps[j].mnemonic)->Some_0) + k)
        },
{
    let ps = parse_all(source_lines(text))->Ok_0;
    lemma_definition_found(ps, name, 0, k);
    let rs = resolved(ps);
    assert(rs[j] == resolve(ps, ps[j]));
    lemma_encode_all_each(rs);
}

proof fn lemma_definition_found(ps: Seq<Parsed>, name: Seq<char>, from: int, k: int)
    requires
        0 <= from <= k < ps.len(),
        ps[k].label == Some(name),
        forall|i: int| 0 <= i < ps.len() && i != k ==> (#[trigger] ps[i]).label != ps[k].label,
    ensures
        definition(ps, name, from) == Some(k),
    decreases k - from,
{
    if from < k {
        lemma_definition_found(ps, name, from + 1, k);
    }
}

proof fn lemma_encode_all_each(ps: Seq<Parsed>)
    ensures
        encode_all(ps) matches Ok(ws) ==> ws.len() == ps.len() && forall|i: int|
            0 <= i < ps.len() ==> encode(#[trigger] ps[i]) == Ok::<nat, ErrorKind>(ws[i]),
    decreases ps.len(),
{
    if ps.len() > 0 {
        lemma_encode_all_each(ps.drop_last());
        if encode_all(ps) is Ok {
            let ws = encode_all(ps)->Ok_0;
            assert forall|i: int| 0 <= i < ps.len() implies encode(#[trigger] ps[i]) == Ok::<nat, ErrorKind>(ws[i]) by {
                if i < ps.len() - 1 {
                    assert(ps.drop_last()[i] == ps[i]);
                }
            }
        }
    }
}

} // verus!
