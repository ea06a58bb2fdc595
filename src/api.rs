use vstd::prelude::*;

use crate::domain::{Line, SqlSchema};
use crate::lexer::{lifts, literal, literal_spec, multispace0, take_while0_spec, Class, ParseError};
use crate::program::{lines_indexed, qpl, state_wf};
use crate::registry::{select_spec, SchemaRegistry};
use crate::state::QplState;
use vstd::string::StringSliceAdditionalSpecFns;

verus! {

/// The environment of one parse: the binding state and the selected schema.
#[derive(Debug)]
pub struct QplEnvironment {
    pub state: QplState,
    pub schema: Option<SqlSchema>,
}

/// How a (possibly partial) input is classified.
#[derive(Clone, Copy, Debug, PartialEq, Eq, Structural)]
pub enum FeedResult {
    /// a complete, valid program
    Complete,
    /// a strict prefix of some valid program, as far as the parser can tell
    Partial,
    /// no continuation can make it valid
    Failure,
}

/// The verdict on a complete input.
#[derive(Debug)]
pub enum ValidationResult {
    Valid,
    Invalid { reason: String },
}

/// A tokenizer artefact: `<pad>`, `<s>` or `</s>`.
pub open spec fn special_token_spec(s: Seq<u8>, p: int, partial: bool) -> Result<int, ParseError> {
    match literal_spec(s, p, seq![60u8], false, partial) {
        Err(x) => Err(x),
        Ok(q) => {
            let inner = match literal_spec(s, q, seq![112u8, 97u8, 100u8], false, partial) {
                Err(ParseError::Mismatch) => match literal_spec(s, q, seq![115u8], false, partial) {
                    Err(ParseError::Mismatch) => literal_spec(s, q, seq![47u8, 115u8], false, partial),
                    other => other,
                },
                other => other,
            };
            match inner {
                Err(x) => Err(x),
                Ok(q) => literal_spec(s, q, seq![62u8], false, partial),
            }
        },
    }
}

/// Tokenizer artefacts repeated from `p` on: the end of the last one.
pub open spec fn specials_spec(s: Seq<u8>, p: int, partial: bool) -> Result<int, ParseError>
    decreases s.len() - p,
{
    if p < 0 || p > s.len() {
        Err(ParseError::Mismatch)
    } else {
        match special_token_spec(s, p, partial) {
            Ok(e) => if e <= p {
                Err(ParseError::Cut)
            } else {
                specials_spec(s, e, partial)
            },
            Err(ParseError::Mismatch) => Ok(p),
            Err(x) => Err(x),
        }
    }
}

/// Where the schema id starts: after whitespace, tokenizer artefacts and
/// whitespace.
pub open spec fn schema_start_spec(s: Seq<u8>, partial: bool) -> Result<int, ParseError> {
    match take_while0_spec(s, 0, Class::Space, partial) {
        Err(x) => Err(x),
        Ok(p) => match specials_spec(s, p, partial) {
            Err(x) => Err(x),
            Ok(p) => take_while0_spec(s, p, Class::Space, partial),
        },
    }
}

fn special_token(s: &[u8], pos: usize, partial: bool) -> (r: Result<usize, ParseError>)
    requires
        pos <= s@.len(),
    ensures
        match r {
            Ok(e) => pos <= e <= s@.len(),
            Err(k) => k != ParseError::Cut,
        },
        lifts(r, special_token_spec(s@, pos as int, partial)),
{
    let lt: Vec<u8> = vec![60u8];
    assert(lt@ =~= seq![60u8]);
    let pad: Vec<u8> = vec![112u8, 97u8, 100u8];
    assert(pad@ =~= seq![112u8, 97u8, 100u8]);
    let s_kw: Vec<u8> = vec![115u8];
    assert(s_kw@ =~= seq![115u8]);
    let end_s: Vec<u8> = vec![47u8, 115u8];
    assert(end_s@ =~= seq![47u8, 115u8]);
    let gt: Vec<u8> = vec![62u8];
    assert(gt@ =~= seq![62u8]);
    let p = literal(s, pos, lt.as_slice(), false, partial)?;
    let p = match literal(s, p, pad.as_slice(), false, partial) {
        Ok(q) => q,
        Err(ParseError::Mismatch) => match literal(s, p, s_kw.as_slice(), false, partial) {
            Ok(q) => q,
            Err(ParseError::Mismatch) => literal(s, p, end_s.as_slice(), false, partial)?,
            Err(k) => {
                return Err(k);
            },
        },
        Err(k) => {
            return Err(k);
        },
    };
    literal(s, p, gt.as_slice(), false, partial)
}

/// What holds of the result of a successful parse of a prefixed program:
/// lines numbered in order and reading only earlier lines, a well-formed final
/// state with one derived table per line, and a schema from the registry.
/// (It does not restate the text that was parsed.)
pub open spec fn parse_invariants(reg: &SchemaRegistry, lines: Seq<Line>, env: QplEnvironment) -> bool {
    &&& lines.len() >= 1
    &&& lines_indexed(lines)
    &&& state_wf(env.state)
    &&& env.state.current_idx == lines.len()
    &&& env.schema is Some
    &&& reg.view_seq().contains(env.schema->Some_0@)
}

/// `<special tokens> <schema id> | <program>`: the schema is chosen by its
/// id, longest id first, then the program is parsed against it with a fresh
/// state.
pub fn prefixed_qpl(reg: &SchemaRegistry, tc: bool, s: &[u8], partial: bool) -> (r: Result<
    (Vec<Line>, QplEnvironment),
    ParseError,
>)
    requires
        reg.wf(),
    ensures
        match r {
            Ok((lines, env)) => parse_invariants(reg, lines@, env) && !partial,
            Err(_) => true,
        },
        // the schema is the one the registry selects where its id starts
        match schema_start_spec(s@, partial) {
            Err(x) => r == Err::<(Vec<Line>, QplEnvironment), ParseError>(x),
            Ok(p) => match select_spec(reg.view_seq(), s@, p, partial) {
                Err(x) => r == Err::<(Vec<Line>, QplEnvironment), ParseError>(x),
                Ok((sv, _)) => r is Ok ==> r->Ok_0.1.schema is Some && r->Ok_0.1.schema->Some_0@ == sv,
            },
        },
{
    let p = multispace0(s, 0, partial)?;
    let p0 = p;
    let mut p = p;
    loop
        invariant
            p <= s@.len(),
            p0 <= s@.len(),
            specials_spec(s@, p0 as int, partial) == specials_spec(s@, p as int, partial),
            take_while0_spec(s@, 0, Class::Space, partial) == Ok::<int, ParseError>(p0 as int),
        ensures
            p <= s@.len(),
            specials_spec(s@, p0 as int, partial) == Ok::<int, ParseError>(p as int),
            take_while0_spec(s@, 0, Class::Space, partial) == Ok::<int, ParseError>(p0 as int),
        decreases s@.len() - p,
    {
        match special_token(s, p, partial) {
            Ok(e) => {
                if e <= p {
                    return Err(ParseError::Cut);
                }
                p = e;
            },
            Err(ParseError::Mismatch) => {
                break;
            },
            Err(k) => {
                return Err(k);
            },
        }
    }
    let p = multispace0(s, p, partial)?;
    let (j, p) = reg.select(s, p, partial)?;
    let ghost chosen = reg.schemas@[j as int]@;
    let sc = &reg.schemas[j];
    assert(reg.view_seq()[j as int] == reg.schemas@[j as int]@);
    assert(sc@.wf());
    let p = multispace0(s, p, partial)?;
    let p = literal(s, p, "|".as_bytes(), false, partial)?;
    let p = multispace0(s, p, partial)?;
    let mut st = QplState::new();
    assert(st.seen@ =~= Seq::<usize>::empty());
    let lines = qpl(&mut st, sc, tc, s, p, partial)?;
    let env = QplEnvironment { state: st, schema: Some(sc.duplicate()) };
    assert(env.schema->Some_0@ == chosen);
    assert(reg.view_seq().contains(env.schema->Some_0@));
    Ok((lines, env))
}

/// Parses a program (without prefix) against `schema`, from a fresh state.
pub fn parse_program(schema: &SqlSchema, tc: bool, input: &str, partial: bool) -> (r: Result<
    (Vec<Line>, QplState),
    ParseError,
>)
    requires
        schema.wf(),
    ensures
        match r {
            Ok((lines, st)) => lines@.len() >= 1 && lines_indexed(lines@) && state_wf(st)
                && st.current_idx == lines@.len() && !partial,
            Err(_) => true,
        },
{
    let s = input.as_bytes();
    let mut st = QplState::new();
    assert(st.seen@ =~= Seq::<usize>::empty());
    let lines = qpl(&mut st, schema, tc, s, 0, partial)?;
    Ok((lines, st))
}

/// Maps a parse outcome to its classification.
pub fn outcome<T>(r: &Result<T, ParseError>) -> (c: FeedResult)
    ensures
        (c == FeedResult::Complete) == (r is Ok),
        (c == FeedResult::Partial) == (r == Err::<T, ParseError>(ParseError::Incomplete)),
{
    match r {
        Ok(_) => FeedResult::Complete,
        Err(ParseError::Incomplete) => FeedResult::Partial,
        Err(_) => FeedResult::Failure,
    }
}

/// Classifies a prefixed input; `complete` says that no more input follows.
/// An input that more input may follow is never `Complete`.
pub fn classify(reg: &SchemaRegistry, tc: bool, input: &str, complete: bool) -> (r: FeedResult)
    requires
        reg.wf(),
    ensures
        !complete ==> r != FeedResult::Complete,
{
    let res = prefixed_qpl(reg, tc, input.as_bytes(), !complete);
    outcome(&res)
}

/// The verdict for a classification: only `Complete` is valid; the reason
/// tells a partial input from a failed one.
pub fn validation_of(c: FeedResult) -> (r: ValidationResult)
    ensures
        (r is Valid) == (c == FeedResult::Complete),
        c == FeedResult::Partial ==> (r matches ValidationResult::Invalid { reason } && reason@
            == "Partial result"@),
        c == FeedResult::Failure ==> (r matches ValidationResult::Invalid { reason } && reason@
            == "Failed to parse"@),
{
    match c {
        FeedResult::Complete => ValidationResult::Valid,
        FeedResult::Partial => ValidationResult::Invalid { reason: "Partial result".to_owned() },
        FeedResult::Failure => ValidationResult::Invalid { reason: "Failed to parse".to_owned() },
    }
}

/// Validates a complete prefixed input.
pub fn validate(reg: &SchemaRegistry, tc: bool, input: &str) -> (r: ValidationResult)
    requires
        reg.wf(),
    ensures
        r matches ValidationResult::Invalid { reason } ==> reason@ == "Partial result"@ || reason@
            == "Failed to parse"@,
{
    validation_of(classify(reg, tc, input, true))
}

/// The text without a trailing end-of-sequence marker `</s>`, and whether
/// the marker was there.
pub fn strip_end_marker(text: &[u8]) -> (r: (Vec<u8>, bool))
    ensures
        r.1 == (text@.len() >= 4 && text@.subrange(text@.len() - 4, text@.len() as int) == seq![
            60u8,
            47u8,
            115u8,
            62u8,
        ]),
        r.1 ==> r.0@ == text@.subrange(0, text@.len() - 4),
        !r.1 ==> r.0@ == text@,
{
    let marker: Vec<u8> = vec![60u8, 47u8, 115u8, 62u8];
    let n = text.len();
    if n >= 4 {
        let tail = crate::lexer::copy_range(text, n - 4, n);
        if crate::lexer::eq_bytes(tail.as_slice(), marker.as_slice()) {
            assert(marker@ =~= seq![60u8, 47u8, 115u8, 62u8]);
            return (crate::lexer::copy_range(text, 0, n - 4), true);
        }
        assert(marker@ =~= seq![60u8, 47u8, 115u8, 62u8]);
    }
    (crate::domain::copy_bytes(text), false)
}

/// Classifies decoded model output: a trailing `</s>` is dropped and marks
/// the input as complete; without it more input may follow.
pub fn feed_decoded(reg: &SchemaRegistry, tc: bool, decoded: &str) -> (r: FeedResult)
    requires
        reg.wf(),
    ensures
        r == FeedResult::Complete ==> strip_marker_present(decoded.spec_bytes()),
{
    let (text, ended) = strip_end_marker(decoded.as_bytes());
    let res = prefixed_qpl(reg, tc, text.as_slice(), !ended);
    outcome(&res)
}

/// The text ends with `</s>`.
pub open spec fn strip_marker_present(t: Seq<u8>) -> bool {
    t.len() >= 4 && t.subrange(t.len() - 4, t.len() as int) == seq![60u8, 47u8, 115u8, 62u8]
}

} // verus!
