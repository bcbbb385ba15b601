//! Reading inertial samples from plain text.
//!
//! Each line that is neither blank nor a comment carries seven numbers, separated by white
//! space: the time step, the angular rate, and the specific force. Comments start with
//! `#`. The caller supplies the function that reads one number.
use crate::geometry::Point3;
use crate::imu_windows::StereoVoBaImuSample;
use crate::scalar::Scalar;
use crate::sequences::{lemma_take_all, lists_kept};
use crate::text::{decimal, decimal_text};
use vstd::prelude::*;

verus! {

/// Characters with the Unicode property White_Space.
pub open spec fn is_white_space(c: char) -> bool {
    ||| '\u{9}' <= c <= '\u{D}'
    ||| c == ' '
    ||| c == '\u{85}'
    ||| c == '\u{A0}'
    ||| c == '\u{1680}'
    ||| '\u{2000}' <= c <= '\u{200A}'
    ||| c == '\u{2028}'
    ||| c == '\u{2029}'
    ||| c == '\u{202F}'
    ||| c == '\u{205F}'
    ||| c == '\u{3000}'
}

fn check_white_space(c: char) -> (b: bool)
    ensures
        b == is_white_space(c),
{
    ('\u{9}' <= c && c <= '\u{D}') || c == ' ' || c == '\u{85}' || c == '\u{A0}' || c == '\u{1680}'
        || ('\u{2000}' <= c && c <= '\u{200A}') || c == '\u{2028}' || c == '\u{2029}' || c
        == '\u{202F}' || c == '\u{205F}' || c == '\u{3000}'
}

/// Pieces that are complete, and the one that is still growing.
#[verifier::ext_equal]
pub struct Pieces {
    pub done: Seq<Seq<char>>,
    pub open: Seq<char>,
}

/// A text cut into runs of characters that are not white space.
pub open spec fn token_pieces(text: Seq<char>) -> Pieces
    decreases text.len(),
{
    if text.len() == 0 {
        Pieces { done: Seq::empty(), open: Seq::empty() }
    } else {
        let before = token_pieces(text.drop_last());
        if !is_white_space(text.last()) {
            Pieces { open: before.open.push(text.last()), ..before }
        } else if before.open.len() > 0 {
            Pieces { done: before.done.push(before.open), open: Seq::empty() }
        } else {
            before
        }
    }
}

/// The maximal runs of characters that are not white space.
pub open spec fn tokens_of(text: Seq<char>) -> Seq<Seq<char>> {
    let pieces = token_pieces(text);
    if pieces.open.len() > 0 {
        pieces.done.push(pieces.open)
    } else {
        pieces.done
    }
}

/// A text cut after each line feed.
pub open spec fn line_pieces(text: Seq<char>) -> Pieces
    decreases text.len(),
{
    if text.len() == 0 {
        Pieces { done: Seq::empty(), open: Seq::empty() }
    } else {
        let before = line_pieces(text.drop_last());
        if text.last() == '\n' {
            Pieces { done: before.done.push(before.open), open: Seq::empty() }
        } else {
            Pieces { open: before.open.push(text.last()), ..before }
        }
    }
}

/// The lines of a text; one that ends with a line feed has no line after it.
pub open spec fn lines_of(text: Seq<char>) -> Seq<Seq<char>> {
    let pieces = line_pieces(text);
    if pieces.open.len() > 0 {
        pieces.done.push(pieces.open)
    } else {
        pieces.done
    }
}

/// The pieces as sequences.
pub open spec fn texts(pieces: Seq<Vec<char>>) -> Seq<Seq<char>> {
    pieces.map_values(|piece: Vec<char>| piece@)
}

proof fn lemma_texts_push(pieces: Seq<Vec<char>>, piece: Vec<char>)
    ensures
        texts(pieces.push(piece)) == texts(pieces).push(piece@),
{
    assert(texts(pieces.push(piece)) =~= texts(pieces).push(piece@));
}

fn split_tokens(text: &Vec<char>) -> (tokens: Vec<Vec<char>>)
    ensures
        texts(tokens@) == tokens_of(text@),
        forall|k: int| 0 <= k < tokens.len() ==> (#[trigger] tokens[k]).len() > 0,
{
    let mut done: Vec<Vec<char>> = Vec::new();
    let mut open: Vec<char> = Vec::new();
    let mut i: usize = 0;
    assert(texts(done@) =~= Seq::empty());
    while i < text.len()
        invariant
            i <= text.len(),
            texts(done@) == token_pieces(text@.take(i as int)).done,
            open@ == token_pieces(text@.take(i as int)).open,
            forall|k: int| 0 <= k < done.len() ==> (#[trigger] done[k]).len() > 0,
        decreases text.len() - i,
    {
        let c: char = text[i];
        assert(text@.take(i + 1).drop_last() =~= text@.take(i as int));
        if !check_white_space(c) {
            open.push(c);
        } else if open.len() > 0 {
            proof {
                lemma_texts_push(done@, open);
            }
            done.push(open);
            open = Vec::new();
        }
        i += 1;
    }
    proof {
        lemma_take_all(text@);
    }
    if open.len() > 0 {
        proof {
            lemma_texts_push(done@, open);
        }
        done.push(open);
    }
    done
}

fn split_lines(text: &Vec<char>) -> (lines: Vec<Vec<char>>)
    ensures
        texts(lines@) == lines_of(text@),
{
    let mut done: Vec<Vec<char>> = Vec::new();
    let mut open: Vec<char> = Vec::new();
    let mut i: usize = 0;
    assert(texts(done@) =~= Seq::empty());
    while i < text.len()
        invariant
            i <= text.len(),
            texts(done@) == line_pieces(text@.take(i as int)).done,
            open@ == line_pieces(text@.take(i as int)).open,
        decreases text.len() - i,
    {
        let c: char = text[i];
        assert(text@.take(i + 1).drop_last() =~= text@.take(i as int));
        if c == '\n' {
            proof {
                lemma_texts_push(done@, open);
            }
            done.push(open);
            open = Vec::new();
        } else {
            open.push(c);
        }
        i += 1;
    }
    proof {
        lemma_take_all(text@);
    }
    if open.len() > 0 {
        proof {
            lemma_texts_push(done@, open);
        }
        done.push(open);
    }
    done
}

fn collect_chars(text: &str) -> (chars: Vec<char>)
    ensures
        chars@ == text@,
{
    let mut chars: Vec<char> = Vec::new();
    for c in it: text.chars()
        invariant
            chars@ == it.seq().take(it.index()),
            it.seq() == text@,
    {
        chars.push(c);
    }
    assert(text@.take(text@.len() as int) =~= text@);
    chars
}

/// What is wrong with a line.
#[derive(Clone, Debug, PartialEq, Eq)]
pub enum ImuTextProblem {
    /// A token is no number; `detail` says why.
    BadNumber { token: Vec<char>, detail: String },
    /// The line does not carry seven numbers.
    WrongCount { count: usize },
    /// The time step is not positive and finite.
    BadDuration { dt: Scalar },
}

/// A line, counted from one, and what is wrong with it.
#[derive(Clone, Debug, PartialEq, Eq)]
pub struct ImuTextError {
    pub line: usize,
    pub problem: ImuTextProblem,
}

impl ImuTextError {
    /// A description for people; `shown` is the token or the time step as text.
    pub fn message(&self, shown: &str) -> (text: String)
        ensures
            text@ == "line "@ + decimal(self.line as nat) + ": "@ + (match self.problem {
                ImuTextProblem::BadNumber { token, detail } => "cannot parse '"@ + shown@ + "': "@
                    + detail@,
                ImuTextProblem::WrongCount { count } =>
                    "expected 7 numbers (dt gyro accel), got "@ + decimal(count as nat),
                ImuTextProblem::BadDuration { dt } =>
                    "dt must be a positive finite number, got "@ + shown@,
            }),
    {
        let head = String::from_str("line ").concat(decimal_text(self.line as u128).as_str()).concat(
            ": ",
        );
        let tail = match &self.problem {
            ImuTextProblem::BadNumber { token, detail } => String::from_str(
                "cannot parse '",
            ).concat(shown).concat("': ").concat(detail.as_str()),
            ImuTextProblem::WrongCount { count } => String::from_str(
                "expected 7 numbers (dt gyro accel), got ",
            ).concat(decimal_text(*count as u128).as_str()),
            ImuTextProblem::BadDuration { dt } => String::from_str(
                "dt must be a positive finite number, got ",
            ).concat(shown),
        };
        head.concat(tail.as_str())
    }
}

/// `outcome` is what reading a token gave.
pub open spec fn is_read<P>(
    number: P,
    token: Seq<char>,
    outcome: Result<Scalar, String>,
) -> bool where P: Fn(&Vec<char>) -> Result<Scalar, String> {
    exists|list: Vec<char>| list@ == token && #[trigger] call_ensures(number, (&list,), outcome)
}

/// The sample that seven numbers make.
pub open spec fn sample_of(numbers: Seq<Scalar>) -> StereoVoBaImuSample {
    StereoVoBaImuSample {
        dt: numbers[0],
        gyro: Point3 { x: numbers[1], y: numbers[2], z: numbers[3] },
        accel: Point3 { x: numbers[4], y: numbers[5], z: numbers[6] },
    }
}

/// A line without tokens, or with a first one that starts with `#`, says nothing.
pub open spec fn is_silent(tokens: Seq<Seq<char>>) -> bool {
    tokens.len() == 0 || (tokens[0].len() > 0 && tokens[0][0] == '#')
}

/// What the numbers of a line lead to.
pub open spec fn numbers_verdict(
    numbers: Seq<Scalar>,
    outcome: Result<Option<StereoVoBaImuSample>, ImuTextProblem>,
) -> bool {
    if numbers.len() != 7 {
        outcome == Err::<Option<StereoVoBaImuSample>, _>(
            ImuTextProblem::WrongCount { count: numbers.len() as usize },
        )
    } else if !numbers[0].is_finite() || numbers[0].le(Scalar::zero()) {
        outcome == Err::<Option<StereoVoBaImuSample>, _>(
            ImuTextProblem::BadDuration { dt: numbers[0] },
        )
    } else {
        outcome == Ok::<_, ImuTextProblem>(Some(sample_of(numbers)))
    }
}

/// The numbers were read from the tokens, one for each.
pub open spec fn are_numbers_of<P>(
    number: P,
    tokens: Seq<Seq<char>>,
    numbers: Seq<Scalar>,
) -> bool where P: Fn(&Vec<char>) -> Result<Scalar, String> {
    &&& numbers.len() <= tokens.len()
    &&& forall|k: int|
        0 <= k < numbers.len() ==> is_read(
            number,
            tokens[k],
            Ok::<Scalar, String>(#[trigger] numbers[k]),
        )
}

/// What a line leads to: nothing, a problem at the first token that is no number, or the
/// verdict on its numbers.
pub open spec fn is_line_outcome<P>(
    number: P,
    tokens: Seq<Seq<char>>,
    outcome: Result<Option<StereoVoBaImuSample>, ImuTextProblem>,
) -> bool where P: Fn(&Vec<char>) -> Result<Scalar, String> {
    if is_silent(tokens) {
        outcome == Ok::<Option<StereoVoBaImuSample>, ImuTextProblem>(None)
    } else {
        exists|numbers: Seq<Scalar>| #[trigger]
            are_numbers_of(number, tokens, numbers) && (if numbers.len() < tokens.len() {
                outcome matches Err(ImuTextProblem::BadNumber { token, detail }) && token@
                    == tokens[numbers.len() as int] && is_read(
                    number,
                    token@,
                    Err::<Scalar, String>(detail),
                )
            } else {
                numbers_verdict(numbers, outcome)
            })
    }
}

/// The samples of the lines that have one.
pub open spec fn collected(
    outcomes: Seq<Result<Option<StereoVoBaImuSample>, ImuTextProblem>>,
) -> Seq<StereoVoBaImuSample>
    decreases outcomes.len(),
{
    if outcomes.len() == 0 {
        Seq::empty()
    } else {
        match outcomes.last() {
            Ok(Some(sample)) => collected(outcomes.drop_last()).push(sample),
            _ => collected(outcomes.drop_last()),
        }
    }
}

/// The outcomes are those of the first lines, all but possibly the last without a problem.
pub open spec fn are_line_outcomes<P>(
    number: P,
    lines: Seq<Seq<char>>,
    outcomes: Seq<Result<Option<StereoVoBaImuSample>, ImuTextProblem>>,
) -> bool where P: Fn(&Vec<char>) -> Result<Scalar, String> {
    &&& outcomes.len() <= lines.len()
    &&& forall|k: int|
        0 <= k < outcomes.len() ==> is_line_outcome(
            number,
            tokens_of(lines[k]),
            #[trigger] outcomes[k],
        )
    &&& forall|k: int| 0 <= k < outcomes.len() - 1 ==> (#[trigger] outcomes[k]) is Ok
}

/// What the outcomes of the lines lead to: the samples of all lines, or the first problem.
pub open spec fn text_verdict(
    lines: Seq<Seq<char>>,
    outcomes: Seq<Result<Option<StereoVoBaImuSample>, ImuTextProblem>>,
    result: Result<Vec<StereoVoBaImuSample>, ImuTextError>,
) -> bool {
    if outcomes.len() > 0 && outcomes.last() is Err {
        result matches Err(error) && error.line == outcomes.len() && error.problem
            == outcomes.last()->Err_0
    } else {
        outcomes.len() == lines.len() && (result matches Ok(samples) && samples@ == collected(
            outcomes,
        ))
    }
}

fn read_line<P>(line: &Vec<char>, number: &P) -> (outcome: Result<
    Option<StereoVoBaImuSample>,
    ImuTextProblem,
>) where P: Fn(&Vec<char>) -> Result<Scalar, String>
    requires
        forall|token: Vec<char>| call_requires(*number, (&token,)),
    ensures
        is_line_outcome(*number, tokens_of(line@), outcome),
{
    let tokens = split_tokens(line);
    let ghost pieces = tokens_of(line@);
    assert(pieces == texts(tokens@));
    if tokens.len() == 0 {
        return Ok(None);
    }
    assert(pieces[0] == tokens[0]@);
    assert(tokens[0].len() > 0);
    if tokens[0][0] == '#' {
        return Ok(None);
    }
    let mut numbers: Vec<Scalar> = Vec::new();
    let mut k: usize = 0;
    while k < tokens.len()
        invariant
            k <= tokens.len(),
            pieces == texts(tokens@),
            pieces == tokens_of(line@),
            !is_silent(pieces),
            forall|token: Vec<char>| call_requires(*number, (&token,)),
            numbers.len() == k,
            are_numbers_of(*number, pieces, numbers@),
        decreases tokens.len() - k,
    {
        assert(pieces[k as int] == tokens[k as int]@);
        let read = number(&tokens[k]);
        assert(is_read(*number, pieces[k as int], read));
        match read {
            Ok(value) => {
                let ghost before = numbers@;
                numbers.push(value);
                proof {
                    assert forall|j: int| 0 <= j < numbers.len() implies is_read(
                        *number,
                        pieces[j],
                        Ok::<Scalar, String>(#[trigger] numbers@[j]),
                    ) by {
                        if j < k {
                            assert(before[j] == numbers@[j]);
                        }
                    }
                }
            },
            Err(detail) => {
                let token = copy_chars(&tokens[k]);
                assert(are_numbers_of(*number, pieces, numbers@));
                return Err(ImuTextProblem::BadNumber { token, detail });
            },
        }
        k += 1;
    }
    assert(are_numbers_of(*number, pieces, numbers@));
    if numbers.len() != 7 {
        return Err(ImuTextProblem::WrongCount { count: numbers.len() });
    }
    let dt = numbers[0];
    if !dt.is_finite() || dt.le(Scalar::zero()) {
        return Err(ImuTextProblem::BadDuration { dt });
    }
    Ok(
        Some(
            StereoVoBaImuSample {
                dt,
                gyro: Point3 { x: numbers[1], y: numbers[2], z: numbers[3] },
                accel: Point3 { x: numbers[4], y: numbers[5], z: numbers[6] },
            },
        ),
    )
}

fn copy_chars(chars: &Vec<char>) -> (copy: Vec<char>)
    ensures
        copy@ == chars@,
{
    let mut copy: Vec<char> = Vec::new();
    let mut i: usize = 0;
    while i < chars.len()
        invariant
            i <= chars.len(),
            copy@ == chars@.take(i as int),
        decreases chars.len() - i,
    {
        copy.push(chars[i]);
        i += 1;
    }
    proof {
        lemma_take_all(chars@);
    }
    copy
}

/// Reads the samples of a text, in order; stops at the first line with a problem. `number`
/// reads one number, or says why a token is none.
pub fn parse_stereo_vo_imu_samples_txt<P>(text: &str, number: P) -> (result: Result<
    Vec<StereoVoBaImuSample>,
    ImuTextError,
>) where P: Fn(&Vec<char>) -> Result<Scalar, String>
    requires
        forall|token: Vec<char>| call_requires(number, (&token,)),
    ensures
        exists|outcomes: Seq<Result<Option<StereoVoBaImuSample>, ImuTextProblem>>| #[trigger]
            are_line_outcomes(number, lines_of(text@), outcomes) && text_verdict(
                lines_of(text@),
                outcomes,
                result,
            ),
{
    let chars = collect_chars(text);
    let lines = split_lines(&chars);
    let ghost all = lines_of(text@);
    let ghost mut outcomes: Seq<Result<Option<StereoVoBaImuSample>, ImuTextProblem>> =
        Seq::empty();
    let mut samples: Vec<StereoVoBaImuSample> = Vec::new();
    let mut i: usize = 0;
    while i < lines.len()
        invariant
            i <= lines.len(),
            all == texts(lines@),
            all == lines_of(text@),
            forall|token: Vec<char>| call_requires(number, (&token,)),
            outcomes.len() == i,
            are_line_outcomes(number, all, outcomes),
            forall|k: int| 0 <= k < outcomes.len() ==> (#[trigger] outcomes[k]) is Ok,
            samples@ == collected(outcomes),
        decreases lines.len() - i,
    {
        assert(all[i as int] == lines[i as int]@);
        let outcome = read_line(&lines[i], &number);
        let ghost before = outcomes;
        proof {
            outcomes = outcomes.push(outcome);
            assert(outcomes.drop_last() =~= before);
            assert forall|k: int| 0 <= k < outcomes.len() implies is_line_outcome(
                number,
                tokens_of(all[k]),
                #[trigger] outcomes[k],
            ) by {
                if k < i {
                    assert(before[k] == outcomes[k]);
                }
            }
            assert forall|k: int| 0 <= k < outcomes.len() - 1 implies (
            #[trigger] outcomes[k]) is Ok by {
                assert(before[k] == outcomes[k]);
            }
        }
        match outcome {
            Ok(Some(sample)) => {
                samples.push(sample);
            },
            Ok(None) => {},
            Err(problem) => {
                let result: Result<Vec<StereoVoBaImuSample>, ImuTextError> = Err(
                    ImuTextError { line: i + 1, problem },
                );
                assert(are_line_outcomes(number, all, outcomes));
                assert(text_verdict(all, outcomes, result));
                return result;
            },
        }
        i += 1;
    }
    let result: Result<Vec<StereoVoBaImuSample>, ImuTextError> = Ok(samples);
    assert(text_verdict(all, outcomes, result));
    result
}

proof fn lemma_token_pieces_append(before: Seq<char>, gap: char, rest: Seq<char>)
    requires
        is_white_space(gap),
    ensures
        token_pieces(before.push(gap) + rest).done == tokens_of(before) + token_pieces(rest).done,
        token_pieces(before.push(gap) + rest).open == token_pieces(rest).open,
    decreases rest.len(),
{
    let whole = before.push(gap) + rest;
    if rest.len() == 0 {
        assert(whole =~= before.push(gap));
        assert(whole.drop_last() =~= before);
        assert(tokens_of(before) + Seq::empty() =~= tokens_of(before));
    } else {
        assert(whole.drop_last() =~= before.push(gap) + rest.drop_last());
        assert(whole.last() == rest.last());
        lemma_token_pieces_append(before, gap, rest.drop_last());
        let inner = token_pieces(rest.drop_last());
        assert((tokens_of(before) + inner.done).push(inner.open) =~= tokens_of(before)
            + inner.done.push(inner.open));
    }
}

proof fn lemma_token_pieces_solid(text: Seq<char>)
    requires
        forall|k: int| 0 <= k < text.len() ==> !is_white_space(#[trigger] text[k]),
    ensures
        token_pieces(text).done.len() == 0,
        token_pieces(text).open == text,
    decreases text.len(),
{
    if text.len() > 0 {
        let rest = text.drop_last();
        assert forall|k: int| 0 <= k < rest.len() implies !is_white_space(#[trigger] rest[k]) by {
            assert(rest[k] == text[k]);
        }
        lemma_token_pieces_solid(rest);
        assert(!is_white_space(text[text.len() - 1]));
        assert(rest.push(text.last()) =~= text);
    } else {
        assert(token_pieces(text).open =~= text);
    }
}

/// White space parts tokens and nothing else does: a text without white space is one token,
/// or none where it is empty; and the tokens of two texts with white space between them are
/// those of the first and then those of the second.
pub proof fn white_space_parts_tokens(before: Seq<char>, gap: char, rest: Seq<char>)
    ensures
        is_white_space(gap) ==> tokens_of(before.push(gap) + rest) == tokens_of(before) + tokens_of(
            rest,
        ),
        (forall|k: int| 0 <= k < before.len() ==> !is_white_space(#[trigger] before[k]))
            ==> tokens_of(before) == if before.len() == 0 {
            Seq::empty()
        } else {
            seq![before]
        },
        is_white_space(' ') && is_white_space('\t') && is_white_space('\r') && is_white_space('\n'),
        '!' <= gap <= '~' ==> !is_white_space(gap),
{
    if is_white_space(gap) {
        lemma_token_pieces_append(before, gap, rest);
        let inner = token_pieces(rest);
        assert((tokens_of(before) + inner.done).push(inner.open) =~= tokens_of(before)
            + inner.done.push(inner.open));
    }
    if forall|k: int| 0 <= k < before.len() ==> !is_white_space(#[trigger] before[k]) {
        lemma_token_pieces_solid(before);
        assert(tokens_of(before) =~= if before.len() == 0 {
            Seq::empty()
        } else {
            seq![before]
        });
    }
}

proof fn lemma_line_pieces_append(before: Seq<char>, rest: Seq<char>)
    requires
        forall|k: int| 0 <= k < before.len() ==> (#[trigger] before[k]) != '\n',
    ensures
        line_pieces(before).done.len() == 0,
        line_pieces(before).open == before,
        line_pieces(before.push('\n') + rest).done == seq![before] + line_pieces(rest).done,
        line_pieces(before.push('\n') + rest).open == line_pieces(rest).open,
    decreases before.len(), rest.len(),
{
    if rest.len() > 0 {
        lemma_line_pieces_append(before, rest.drop_last());
        let whole = before.push('\n') + rest;
        assert(whole.drop_last() =~= before.push('\n') + rest.drop_last());
        assert(whole.last() == rest.last());
        let inner = line_pieces(rest.drop_last());
        assert((seq![before] + inner.done).push(inner.open) =~= seq![before] + inner.done.push(
            inner.open,
        ));
    } else {
        if before.len() > 0 {
            let shorter = before.drop_last();
            assert forall|k: int| 0 <= k < shorter.len() implies (#[trigger] shorter[k])
                != '\n' by {
                assert(shorter[k] == before[k]);
            }
            lemma_line_pieces_append(shorter, Seq::empty());
            assert(before[before.len() - 1] != '\n');
            assert(shorter.push(before.last()) =~= before);
        } else {
            assert(line_pieces(before).open =~= before);
        }
        let whole = before.push('\n') + rest;
        assert(whole =~= before.push('\n'));
        assert(whole.drop_last() =~= before);
        assert(line_pieces(before).done =~= Seq::empty());
        assert(line_pieces(rest).done =~= Seq::empty());
        assert(whole.last() == '\n');
        assert(line_pieces(whole).done =~= line_pieces(before).done.push(before));
        assert(line_pieces(whole).done =~= seq![before] + line_pieces(rest).done);
        assert(line_pieces(whole).open =~= line_pieces(rest).open);
    }
}

/// A newline ends a line and nothing else does: a text without one is a line, or none where
/// it is empty; and what follows a newline has lines of its own.
pub proof fn newlines_end_lines(line: Seq<char>, rest: Seq<char>)
    requires
        forall|k: int| 0 <= k < line.len() ==> (#[trigger] line[k]) != '\n',
    ensures
        lines_of(line) == if line.len() == 0 {
            Seq::empty()
        } else {
            seq![line]
        },
        lines_of(line.push('\n') + rest) == seq![line] + lines_of(rest),
{
    lemma_line_pieces_append(line, rest);
    let inner = line_pieces(rest);
    assert((seq![line] + inner.done).push(inner.open) =~= seq![line] + inner.done.push(inner.open));
    assert(lines_of(line) =~= if line.len() == 0 {
        Seq::empty()
    } else {
        seq![line]
    });
}

/// What a line gives: nothing where it is empty or a comment; a sample where it holds seven
/// numbers, the first of which is finite and positive: the duration, then the rotation rates,
/// then the accelerations. Anything else is a problem.
pub proof fn lines_hold_seven_numbers<P>(
    number: P,
    tokens: Seq<Seq<char>>,
    outcome: Result<Option<StereoVoBaImuSample>, ImuTextProblem>,
) where P: Fn(&Vec<char>) -> Result<Scalar, String>
    requires
        is_line_outcome(number, tokens, outcome),
        tokens.len() <= usize::MAX,
    ensures
        outcome == Ok::<Option<StereoVoBaImuSample>, ImuTextProblem>(None) <==> tokens.len() == 0 || (
        tokens[0].len() > 0 && tokens[0][0] == '#'),
        (outcome matches Ok(Some(sample)) ==> {
            &&& tokens.len() == 7
            &&& is_read(number, tokens[0], Ok::<Scalar, String>(sample.dt))
            &&& is_read(number, tokens[1], Ok::<Scalar, String>(sample.gyro.x))
            &&& is_read(number, tokens[2], Ok::<Scalar, String>(sample.gyro.y))
            &&& is_read(number, tokens[3], Ok::<Scalar, String>(sample.gyro.z))
            &&& is_read(number, tokens[4], Ok::<Scalar, String>(sample.accel.x))
            &&& is_read(number, tokens[5], Ok::<Scalar, String>(sample.accel.y))
            &&& is_read(number, tokens[6], Ok::<Scalar, String>(sample.accel.z))
            &&& sample.dt.is_finite()
            &&& Scalar::zero().lt(sample.dt)
        }),
        (outcome matches Err(ImuTextProblem::WrongCount { count }) ==> count == tokens.len()
            && count != 7),
        (outcome matches Err(ImuTextProblem::BadDuration { dt }) ==> tokens.len() == 7 && is_read(
            number,
            tokens[0],
            Ok::<Scalar, String>(dt),
        ) && !(dt.is_finite() && Scalar::zero().lt(dt))),
        (outcome matches Err(ImuTextProblem::BadNumber { token, detail }) ==> tokens.contains(token@)
            && is_read(number, token@, Err::<Scalar, String>(detail))),
{
    if !is_silent(tokens) {
        let numbers = choose|numbers: Seq<Scalar>| #[trigger]
            are_numbers_of(number, tokens, numbers) && (if numbers.len() < tokens.len() {
                outcome matches Err(ImuTextProblem::BadNumber { token, detail }) && token@
                    == tokens[numbers.len() as int] && is_read(
                    number,
                    token@,
                    Err::<Scalar, String>(detail),
                )
            } else {
                numbers_verdict(numbers, outcome)
            });
        if numbers.len() < tokens.len() {
            assert(tokens.contains(tokens[numbers.len() as int]));
        } else if numbers.len() == 7 {
            assert(is_read(number, tokens[0], Ok::<Scalar, String>(numbers[0])));
            assert(is_read(number, tokens[1], Ok::<Scalar, String>(numbers[1])));
            assert(is_read(number, tokens[2], Ok::<Scalar, String>(numbers[2])));
            assert(is_read(number, tokens[3], Ok::<Scalar, String>(numbers[3])));
            assert(is_read(number, tokens[4], Ok::<Scalar, String>(numbers[4])));
            assert(is_read(number, tokens[5], Ok::<Scalar, String>(numbers[5])));
            assert(is_read(number, tokens[6], Ok::<Scalar, String>(numbers[6])));
        }
    }
}

/// The samples of a text are those of its lines, in order.
pub proof fn samples_come_line_by_line(
    outcomes: Seq<Result<Option<StereoVoBaImuSample>, ImuTextProblem>>,
) -> (at: Seq<int>)
    ensures
        lists_kept(
            at,
            outcomes.len(),
            |k: int| outcomes[k] is Ok && outcomes[k]->Ok_0 is Some,
        ),
        collected(outcomes).len() == at.len(),
        forall|k: int|
            0 <= k < at.len() ==> outcomes[#[trigger] at[k]] == Ok::<
                Option<StereoVoBaImuSample>,
                ImuTextProblem,
            >(Some(collected(outcomes)[k])),
    decreases outcomes.len(),
{
    let kept = |k: int| outcomes[k] is Ok && outcomes[k]->Ok_0 is Some;
    if outcomes.len() == 0 {
        Seq::empty()
    } else {
        let rest = outcomes.drop_last();
        let n = rest.len() as int;
        let before = samples_come_line_by_line(rest);
        let kept_before = |k: int| rest[k] is Ok && rest[k]->Ok_0 is Some;
        assert forall|k: int| 0 <= k < n implies #[trigger] kept(k) == kept_before(k) by {}
        assert(lists_kept(before, rest.len(), kept));
        crate::sequences::lemma_lists_one_more(before, rest.len(), kept);
        assert forall|k: int| 0 <= k < before.len() implies rest[#[trigger] before[k]]
            == outcomes[before[k]] by {}
        if kept(n) {
            let at = before.push(n);
            assert(at.last() == n);
            at
        } else {
            before
        }
    }
}

/// A text is refused at the first line with a problem, counted from one, and read to its end
/// where there is none.
pub proof fn texts_are_refused_at_the_first_bad_line<P>(
    number: P,
    lines: Seq<Seq<char>>,
    outcomes: Seq<Result<Option<StereoVoBaImuSample>, ImuTextProblem>>,
    result: Result<Vec<StereoVoBaImuSample>, ImuTextError>,
) where P: Fn(&Vec<char>) -> Result<Scalar, String>
    requires
        are_line_outcomes(number, lines, outcomes),
        text_verdict(lines, outcomes, result),
    ensures
        (result matches Ok(samples) ==> outcomes.len() == lines.len() && samples@ == collected(
            outcomes,
        ) && forall|k: int| 0 <= k < outcomes.len() ==> (#[trigger] outcomes[k]) is Ok),
        (result matches Err(error) ==> {
            let k = error.line - 1;
            &&& 0 <= k < lines.len()
            &&& k < outcomes.len()
            &&& outcomes[k] == Err::<Option<StereoVoBaImuSample>, _>(error.problem)
            &&& forall|j: int| 0 <= j < k ==> (#[trigger] outcomes[j]) is Ok
            &&& is_line_outcome(
                number,
                tokens_of(lines[k]),
                Err::<Option<StereoVoBaImuSample>, _>(error.problem),
            )
        }),
{
    if outcomes.len() > 0 {
        let last = outcomes[outcomes.len() - 1];
    }
}

} // verus!
