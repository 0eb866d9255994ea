//! The text form of a scenario: a header line `number_of_objects,max_weight,max_size`,
//! then one line `weight,size,cost` for each object.

use crate::consts::Number;
use crate::scenario::Scenario;
use crate::scenario::ScenarioError;
use crate::scenario::ScenarioView;
use crate::scenario::StrategyLoadError;
use vstd::prelude::*;

verus! {

/// The byte that ends a line.
pub const NEWLINE: u8 = 0x0a;

/// The byte that may stand before the newline at the end of a line.
pub const CARRIAGE_RETURN: u8 = 0x0d;

/// The byte that parts the fields of a line.
pub const COMMA: u8 = 0x2c;

/// The plus sign.
pub const PLUS: u8 = 0x2b;

/// The minus sign.
pub const MINUS: u8 = 0x2d;

/// The digit 0.
pub const ZERO: u8 = 0x30;

/// The digit 9.
pub const NINE: u8 = 0x39;

/// The pieces of `s` between the separators: one more than there are
/// separators, and possibly empty.
pub open spec fn split(s: Seq<u8>, separator: u8) -> Seq<Seq<u8>>
    decreases s.len(),
{
    if s.len() == 0 {
        seq![Seq::<u8>::empty()]
    } else {
        let before = split(s.drop_last(), separator);
        if s.last() == separator {
            before.push(Seq::<u8>::empty())
        } else {
            before.update(before.len() - 1, before.last().push(s.last()))
        }
    }
}

/// The line without the carriage return at its end, if it has one.
pub open spec fn without_return(line: Seq<u8>) -> Seq<u8> {
    if line.len() > 0 && line.last() == CARRIAGE_RETURN {
        line.drop_last()
    } else {
        line
    }
}

/// The lines of a text. A line ends with a newline, which may follow a
/// carriage return, neither of them part of the line; what follows the last
/// newline is a line too unless it is empty.
pub open spec fn lines_of(text: Seq<u8>) -> Seq<Seq<u8>> {
    let pieces = split(text, NEWLINE);
    let ended = Seq::new((pieces.len() - 1) as nat, |i: int| without_return(pieces[i]));
    if pieces.last().len() == 0 {
        ended
    } else {
        ended.push(pieces.last())
    }
}

/// Every byte of `s` is a decimal digit.
pub open spec fn all_digits(s: Seq<u8>) -> bool {
    forall|i: int| 0 <= i < s.len() ==> ZERO <= #[trigger] s[i] <= NINE
}

/// The number that the digits of `s` write in decimal notation.
pub open spec fn digits_value(s: Seq<u8>) -> int
    decreases s.len(),
{
    if s.len() == 0 {
        0
    } else {
        digits_value(s.drop_last()) * 10 + (s.last() - ZERO)
    }
}

/// The integer that `field` writes: digits, with a sign before them or
/// without. Nothing else writes an integer.
pub open spec fn integer_of(field: Seq<u8>) -> Option<int> {
    if field.len() > 0 && (field[0] == PLUS || field[0] == MINUS) {
        let digits = field.skip(1);
        if digits.len() > 0 && all_digits(digits) {
            Some(
                if field[0] == MINUS {
                    -digits_value(digits)
                } else {
                    digits_value(digits)
                },
            )
        } else {
            None
        }
    } else if field.len() > 0 && all_digits(field) {
        Some(digits_value(field))
    } else {
        None
    }
}

/// The `Number` that `field` writes, if it writes one.
pub open spec fn number_of(field: Seq<u8>) -> Option<i32> {
    match integer_of(field) {
        Some(value) => if i32::MIN <= value <= i32::MAX {
            Some(value as i32)
        } else {
            None
        },
        None => None,
    }
}

/// The numbers that the fields of `line` write, if each of them writes one.
pub open spec fn numbers_of(line: Seq<u8>) -> Option<Seq<i32>> {
    let fields = split(line, COMMA);
    if forall|i: int| 0 <= i < fields.len() ==> (#[trigger] number_of(fields[i])).is_some() {
        Some(Seq::new(fields.len(), |i: int| number_of(fields[i]).unwrap()))
    } else {
        None
    }
}

/// What is wrong with the line at `at`, if anything: a field that writes no
/// number, or another count of fields than three.
pub open spec fn line_fault(line: Seq<u8>, at: int) -> Option<ScenarioError> {
    match numbers_of(line) {
        None => Some(ScenarioError::InvalidNumber { line: at as usize }),
        Some(numbers) => if numbers.len() == 3 {
            None
        } else if at == 0 {
            Some(ScenarioError::Malformed(StrategyLoadError::HeaderLengthOtherThen3))
        } else {
            Some(ScenarioError::Malformed(StrategyLoadError::LineLengthOtherThen3))
        },
    }
}

/// The fault of the first line at fault among the first `upto` lines.
pub open spec fn first_fault(lines: Seq<Seq<u8>>, upto: int) -> Option<ScenarioError>
    decreases upto,
{
    if upto <= 0 {
        None
    } else {
        match first_fault(lines, upto - 1) {
            Some(fault) => Some(fault),
            None => line_fault(lines[upto - 1], upto - 1),
        }
    }
}

/// The numbers in the given field of the lines after the header.
pub open spec fn column(lines: Seq<Seq<u8>>, field: int) -> Seq<i32> {
    Seq::new((lines.len() - 1) as nat, |i: int| numbers_of(lines[i + 1]).unwrap()[field])
}

/// What a text holds: a scenario, or the first reason to refuse it, the
/// lines taken in their order before the numbers as a whole.
pub open spec fn loaded(text: Seq<u8>) -> Result<ScenarioView, ScenarioError> {
    let lines = lines_of(text);
    if lines.len() == 0 {
        Err(ScenarioError::Malformed(StrategyLoadError::NoHeader))
    } else {
        match first_fault(lines, lines.len() as int) {
            Some(fault) => Err(fault),
            None => {
                let header = numbers_of(lines[0]).unwrap();
                let view = ScenarioView {
                    weights: column(lines, 0),
                    sizes: column(lines, 1),
                    costs: column(lines, 2),
                    number_of_objects: header[0],
                    max_weight: header[1],
                    max_size: header[2],
                };
                match view.fault() {
                    Some(fault) => Err(fault),
                    None => Ok(view),
                }
            },
        }
    }
}

/// The contents of each vector of `pieces`.
pub open spec fn contents(pieces: Seq<Vec<u8>>) -> Seq<Seq<u8>> {
    Seq::new(pieces.len(), |i: int| pieces[i]@)
}

/// Splits `s` at each separator.
pub fn split_at(s: &[u8], separator: u8) -> (pieces: Vec<Vec<u8>>)
    ensures
        contents(pieces@) == split(s@, separator),
{
    let mut pieces: Vec<Vec<u8>> = Vec::new();
    let mut piece: Vec<u8> = Vec::new();
    let mut i: usize = 0;
    while i < s.len()
        invariant
            i <= s@.len(),
            contents(pieces@).push(piece@) == split(s@.take(i as int), separator),
        decreases s@.len() - i,
    {
        assert(s@.take(i as int + 1).drop_last() =~= s@.take(i as int));
        if s[i] == separator {
            pieces.push(piece);
            piece = Vec::new();
        } else {
            piece.push(s[i]);
        }
        i += 1;
    }
    assert(s@.take(i as int) =~= s@);
    pieces.push(piece);
    pieces
}

/// Splits a text into its lines.
pub fn lines(text: &[u8]) -> (lines: Vec<Vec<u8>>)
    ensures
        contents(lines@) == lines_of(text@),
{
    let mut pieces: Vec<Vec<u8>> = split_at(text, NEWLINE);
    let ghost found = contents(pieces@);
    assert(found.len() > 0) by {
        lemma_split_not_empty(text@, NEWLINE);
    }
    let last: Vec<u8> = pieces.pop().unwrap();
    let mut lines: Vec<Vec<u8>> = Vec::new();
    let mut i: usize = 0;
    while i < pieces.len()
        invariant
            i <= pieces@.len(),
            pieces@.len() == found.len() - 1,
            forall|j: int| 0 <= j < pieces@.len() ==> pieces@[j]@ == found[j],
            lines@.len() == i,
            forall|j: int| 0 <= j < i ==> lines@[j]@ == without_return(found[j]),
        decreases pieces@.len() - i,
    {
        let piece: &Vec<u8> = &pieces[i];
        let mut line: Vec<u8> = piece.clone();
        if line.len() > 0 && line[line.len() - 1] == CARRIAGE_RETURN {
            line.pop();
        }
        lines.push(line);
        i += 1;
    }
    if last.len() > 0 {
        lines.push(last);
    }
    lines
}

/// A text splits into at least one piece.
pub proof fn lemma_split_not_empty(s: Seq<u8>, separator: u8)
    ensures
        split(s, separator).len() > 0,
    decreases s.len(),
{
    if s.len() > 0 {
        lemma_split_not_empty(s.drop_last(), separator);
    }
}

/// The digits of a prefix write no greater number than all the digits.
pub proof fn lemma_digits_grow(s: Seq<u8>, k: int)
    requires
        all_digits(s),
        0 <= k <= s.len(),
    ensures
        0 <= digits_value(s.take(k)) <= digits_value(s),
    decreases s.len() - k,
{
    if k == s.len() {
        assert(s.take(k) =~= s);
        lemma_digits_not_negative(s);
    } else {
        lemma_digits_grow(s, k + 1);
        assert(s.take(k + 1).drop_last() =~= s.take(k));
    }
}

/// Digits write no negative number.
pub proof fn lemma_digits_not_negative(s: Seq<u8>)
    requires
        all_digits(s),
    ensures
        0 <= digits_value(s),
    decreases s.len(),
{
    if s.len() > 0 {
        lemma_digits_not_negative(s.drop_last());
    }
}

/// The number that `field` writes in decimal notation, if it writes one.
pub fn parse_number(field: &Vec<u8>) -> (number: Option<Number>)
    ensures
        number == number_of(field@),
{
    let length: usize = field.len();
    if length == 0 {
        return None;
    }
    let signed: bool = field[0] == PLUS || field[0] == MINUS;
    let negative: bool = field[0] == MINUS;
    let start: usize = if signed {
        1
    } else {
        0
    };
    if start == length {
        return None;
    }
    let ghost digits = field@.skip(start as int);
    let mut value: i64 = 0;
    let mut i: usize = start;
    while i < length
        invariant
            start <= i <= length,
            length == field@.len(),
            digits == field@.skip(start as int),
            signed == (field@[0] == PLUS || field@[0] == MINUS),
            start == if signed {
                1usize
            } else {
                0usize
            },
            all_digits(digits.take(i - start)),
            value == digits_value(digits.take(i - start)),
            0 <= value <= 0x8000_0000,
        decreases length - i,
    {
        let byte: u8 = field[i];
        proof {
            assert(digits.take(i - start + 1).drop_last() =~= digits.take(i - start));
            assert(digits[i - start] == byte);
        }
        if byte < ZERO || byte > NINE {
            return None;
        }
        value = value * 10 + (byte - ZERO) as i64;
        if value > 0x8000_0000 {
            proof {
                if all_digits(digits) {
                    lemma_digits_grow(digits, i - start + 1);
                }
                if !signed {
                    assert(digits =~= field@);
                }
            }
            return None;
        }
        i += 1;
    }
    proof {
        assert(digits.take(i - start) =~= digits);
        if !signed {
            assert(digits =~= field@);
        }
    }
    let value: i64 = if negative {
        -value
    } else {
        value
    };
    if value > i32::MAX as i64 {
        None
    } else {
        Some(value as i32)
    }
}

/// The numbers that the fields of `line` write, if each of them writes one.
pub fn parse_line(line: &Vec<u8>) -> (numbers: Option<Vec<Number>>)
    ensures
        match numbers {
            Some(numbers) => numbers_of(line@) == Some(numbers@),
            None => numbers_of(line@).is_none(),
        },
{
    let fields: Vec<Vec<u8>> = split_at(line.as_slice(), COMMA);
    let ghost found = split(line@, COMMA);
    let mut numbers: Vec<Number> = Vec::new();
    let mut i: usize = 0;
    while i < fields.len()
        invariant
            i <= fields@.len(),
            contents(fields@) == found,
            found == split(line@, COMMA),
            numbers@.len() == i,
            forall|j: int| 0 <= j < i ==> #[trigger] number_of(found[j]) == Some(numbers@[j]),
        decreases fields@.len() - i,
    {
        match parse_number(&fields[i]) {
            Some(number) => {
                numbers.push(number);
            },
            None => {
                assert(number_of(found[i as int]).is_none());
                return None;
            },
        }
        i += 1;
    }
    Some(numbers)
}

impl Scenario {
    /// The scenario that a text holds, or the first reason to refuse the
    /// text.
    pub fn load(input: &[u8]) -> (made: Result<Scenario, ScenarioError>)
        ensures
            match made {
                Ok(scenario) => loaded(input@) == Ok::<ScenarioView, ScenarioError>(scenario@),
                Err(error) => loaded(input@) == Err::<ScenarioView, ScenarioError>(error),
            },
    {
        let lines: Vec<Vec<u8>> = lines(input);
        let ghost found = lines_of(input@);
        if lines.len() == 0 {
            return Err(ScenarioError::Malformed(StrategyLoadError::NoHeader));
        }
        assert(first_fault(found, 1) == line_fault(found[0], 0)) by {
            assert(first_fault(found, 0).is_none());
        }
        let header: Vec<Number> = match parse_line(&lines[0]) {
            Some(header) => header,
            None => {
                proof {
                    lemma_fault_stays(found, 1, found.len() as int);
                }
                return Err(ScenarioError::InvalidNumber { line: 0 });
            },
        };
        if header.len() != 3 {
            proof {
                lemma_fault_stays(found, 1, found.len() as int);
            }
            return Err(ScenarioError::Malformed(StrategyLoadError::HeaderLengthOtherThen3));
        }
        let number_of_objects: Number = header[0];
        let max_weight: Number = header[1];
        let max_size: Number = header[2];

        let mut weights: Vec<Number> = Vec::new();
        let mut sizes: Vec<Number> = Vec::new();
        let mut costs: Vec<Number> = Vec::new();

        let mut i: usize = 1;
        while i < lines.len()
            invariant
                1 <= i <= lines@.len(),
                contents(lines@) == found,
                found == lines_of(input@),
                first_fault(found, i as int).is_none(),
                forall|j: int| 0 <= j < i ==> line_fault(#[trigger] found[j], j).is_none(),
                weights@.len() == i - 1,
                sizes@.len() == i - 1,
                costs@.len() == i - 1,
                forall|j: int|
                    0 <= j < i - 1 ==> #[trigger] weights@[j] == numbers_of(
                        found[j + 1],
                    ).unwrap()[0],
                forall|j: int|
                    0 <= j < i - 1 ==> #[trigger] sizes@[j] == numbers_of(found[j + 1]).unwrap()[1],
                forall|j: int|
                    0 <= j < i - 1 ==> #[trigger] costs@[j] == numbers_of(found[j + 1]).unwrap()[2],
            decreases lines@.len() - i,
        {
            let line: Vec<Number> = match parse_line(&lines[i]) {
                Some(line) => line,
                None => {
                    proof {
                        lemma_fault_stays(found, i as int + 1, found.len() as int);
                    }
                    return Err(ScenarioError::InvalidNumber { line: i });
                },
            };
            if line.len() != 3 {
                proof {
                    lemma_fault_stays(found, i as int + 1, found.len() as int);
                }
                return Err(ScenarioError::Malformed(StrategyLoadError::LineLengthOtherThen3));
            }
            weights.push(line[0]);
            sizes.push(line[1]);
            costs.push(line[2]);
            i += 1;
        }
        assert(weights@ =~= column(found, 0));
        assert(sizes@ =~= column(found, 1));
        assert(costs@ =~= column(found, 2));
        Scenario::assemble(number_of_objects, max_weight, max_size, weights, sizes, costs)
    }
}

/// A fault among the first lines is the first fault among more lines too.
pub proof fn lemma_fault_stays(lines: Seq<Seq<u8>>, upto: int, later: int)
    requires
        first_fault(lines, upto).is_some(),
        upto <= later,
    ensures
        first_fault(lines, later) == first_fault(lines, upto),
    decreases later - upto,
{
    if upto < later {
        lemma_fault_stays(lines, upto, later - 1);
    }
}

/// The digits that write `n` in decimal notation, without leading zeros.
pub open spec fn digits_of(n: nat) -> Seq<u8>
    decreases n,
{
    if n < 10 {
        seq![(ZERO + n) as u8]
    } else {
        digits_of(n / 10).push((ZERO + n % 10) as u8)
    }
}

/// The decimal notation of `n`: its digits, after a minus sign if it is
/// negative.
pub open spec fn written(n: int) -> Seq<u8> {
    if n < 0 {
        seq![MINUS] + digits_of((-n) as nat)
    } else {
        digits_of(n as nat)
    }
}

/// A line of three numbers: their decimal notations with commas between
/// them and a newline at the end.
pub open spec fn line_of(first: i32, second: i32, third: i32) -> Seq<u8> {
    fields_of(first, second, third) + seq![NEWLINE]
}

/// The lines of the first `upto` objects of a scenario.
pub open spec fn object_lines(scenario: ScenarioView, upto: int) -> Seq<u8>
    decreases upto,
{
    if upto <= 0 {
        Seq::<u8>::empty()
    } else {
        object_lines(scenario, upto - 1) + line_of(
            scenario.weights[upto - 1],
            scenario.sizes[upto - 1],
            scenario.costs[upto - 1],
        )
    }
}

/// The text of a scenario: the header line, then the line of each object.
pub open spec fn printed(scenario: ScenarioView) -> Seq<u8> {
    line_of(scenario.number_of_objects, scenario.max_weight, scenario.max_size) + object_lines(
        scenario,
        scenario.weights.len() as int,
    )
}

/// The decimal notation of a number holds digits only, at least one, and
/// they write the number.
pub proof fn lemma_digits_read_back(n: nat)
    ensures
        digits_of(n).len() > 0,
        all_digits(digits_of(n)),
        digits_value(digits_of(n)) == n,
    decreases n,
{
    let digits = digits_of(n);
    if n >= 10 {
        lemma_digits_read_back(n / 10);
        assert(digits.drop_last() =~= digits_of(n / 10));
    } else {
        assert(digits_value(digits) == digits_value(digits.drop_last()) * 10 + (digits.last()
            - ZERO));
    }
}

/// What is written of a `Number` reads back as that number.
pub proof fn lemma_number_reads_back(n: i32)
    ensures
        number_of(written(n as int)) == Some(n),
{
    if n < 0 {
        lemma_digits_read_back((-n) as nat);
        assert(written(n as int).skip(1) =~= digits_of((-n) as nat));
    } else {
        lemma_digits_read_back(n as nat);
    }
}

/// Appends the digits of `n` to `out`.
fn write_digits(n: u32, out: &mut Vec<u8>)
    ensures
        final(out)@ == old(out)@ + digits_of(n as nat),
    decreases n,
{
    if n >= 10 {
        write_digits(n / 10, out);
    }
    out.push(ZERO + (n % 10) as u8);
}

/// Appends the decimal notation of `n` to `out`.
pub fn write_number(n: Number, out: &mut Vec<u8>)
    ensures
        final(out)@ == old(out)@ + written(n as int),
{
    if n < 0 {
        out.push(MINUS);
        write_digits((-(n as i64)) as u32, out);
    } else {
        write_digits(n as u32, out);
    }
}

/// Appends a line of three numbers to `out`.
pub fn write_line(first: Number, second: Number, third: Number, out: &mut Vec<u8>)
    ensures
        final(out)@ == old(out)@ + line_of(first, second, third),
{
    write_number(first, out);
    out.push(COMMA);
    write_number(second, out);
    out.push(COMMA);
    write_number(third, out);
    out.push(NEWLINE);
}

impl Scenario {
    /// The text of the scenario.
    pub fn to_csv(&self) -> (text: Vec<u8>)
        requires
            self@.weights.len() == self@.sizes.len(),
            self@.weights.len() == self@.costs.len(),
        ensures
            text@ == printed(self@),
    {
        let weights: Vec<Number> = self.weights.to_vec();
        let sizes: Vec<Number> = self.sizes.to_vec();
        let costs: Vec<Number> = self.costs.to_vec();
        let mut text: Vec<u8> = Vec::new();
        write_line(self.number_of_objects, self.max_weight, self.max_size, &mut text);
        let ghost header = text@;
        let mut i: usize = 0;
        while i < weights.len()
            invariant
                i <= weights@.len(),
                weights@ == self@.weights,
                sizes@ == self@.sizes,
                costs@ == self@.costs,
                weights@.len() == sizes@.len(),
                weights@.len() == costs@.len(),
                text@ == header + object_lines(self@, i as int),
            decreases weights@.len() - i,
        {
            write_line(weights[i], sizes[i], costs[i], &mut text);
            i += 1;
        }
        text
    }
}

/// No byte of `s` is `byte`.
pub open spec fn free_of(s: Seq<u8>, byte: u8) -> bool {
    forall|i: int| 0 <= i < s.len() ==> s[i] != byte
}

/// What three numbers are written as, without the newline at the end.
pub open spec fn fields_of(first: i32, second: i32, third: i32) -> Seq<u8> {
    written(first as int) + seq![COMMA] + written(second as int) + seq![COMMA] + written(
        third as int,
    )
}

/// The lines of a scenario's text: the header and the first `upto` objects.
pub open spec fn printed_lines(scenario: ScenarioView, upto: int) -> Seq<Seq<u8>> {
    Seq::new(
        (upto + 1) as nat,
        |i: int|
            if i == 0 {
                fields_of(scenario.number_of_objects, scenario.max_weight, scenario.max_size)
            } else {
                fields_of(scenario.weights[i - 1], scenario.sizes[i - 1], scenario.costs[i - 1])
            },
    )
}

/// Bytes without a separator, added to a text, lengthen its last piece.
pub proof fn lemma_split_append(s: Seq<u8>, added: Seq<u8>, separator: u8)
    requires
        free_of(added, separator),
    ensures
        split(s + added, separator) == split(s, separator).update(
            split(s, separator).len() - 1,
            split(s, separator).last() + added,
        ),
    decreases added.len(),
{
    let pieces = split(s, separator);
    lemma_split_not_empty(s, separator);
    if added.len() == 0 {
        assert(s + added =~= s);
        assert(pieces.last() + added =~= pieces.last());
        assert(pieces.update(pieces.len() - 1, pieces.last()) =~= pieces);
    } else {
        let shorter = added.drop_last();
        lemma_split_append(s, shorter, separator);
        assert((s + added).drop_last() =~= s + shorter);
        assert((s + added).last() == added.last());
        let before = split(s + shorter, separator);
        assert(before.last().push(added.last()) =~= pieces.last() + added);
        assert(before.update(before.len() - 1, before.last().push(added.last()))
            =~= pieces.update(pieces.len() - 1, pieces.last() + added));
    }
}

/// A separator, added to a text, begins a new and empty piece.
pub proof fn lemma_split_separator(s: Seq<u8>, separator: u8)
    ensures
        split(s.push(separator), separator) == split(s, separator).push(Seq::<u8>::empty()),
{
    assert(s.push(separator).drop_last() =~= s);
}

/// What is written of a number holds no comma, newline or carriage return,
/// and ends with a digit.
pub proof fn lemma_written_is_plain(n: i32)
    ensures
        written(n as int).len() > 0,
        free_of(written(n as int), COMMA),
        free_of(written(n as int), NEWLINE),
        ZERO <= written(n as int).last() <= NINE,
{
    if n < 0 {
        lemma_digits_read_back((-n) as nat);
        let digits = digits_of((-n) as nat);
        assert forall|i: int| 0 <= i < written(n as int).len() implies written(n as int)[i]
            != COMMA && written(n as int)[i] != NEWLINE by {
            if i > 0 {
                assert(written(n as int)[i] == digits[i - 1]);
            }
        }
        assert(written(n as int).last() == digits.last());
    } else {
        lemma_digits_read_back(n as nat);
    }
}

/// The fields of three written numbers read back as the three numbers, and
/// hold no newline, and end with a digit.
pub proof fn lemma_fields_read_back(first: i32, second: i32, third: i32)
    ensures
        numbers_of(fields_of(first, second, third)) == Some(seq![first, second, third]),
        free_of(fields_of(first, second, third), NEWLINE),
        without_return(fields_of(first, second, third)) == fields_of(first, second, third),
{
    let a = written(first as int);
    let b = written(second as int);
    let c = written(third as int);
    let line = fields_of(first, second, third);
    lemma_written_is_plain(first);
    lemma_written_is_plain(second);
    lemma_written_is_plain(third);
    lemma_number_reads_back(first);
    lemma_number_reads_back(second);
    lemma_number_reads_back(third);

    // The fields are the three written numbers.
    lemma_split_append(Seq::<u8>::empty(), a, COMMA);
    assert(Seq::<u8>::empty() + a =~= a);
    assert(split(a, COMMA) =~= seq![a]);
    lemma_split_separator(a, COMMA);
    assert(a + seq![COMMA] =~= a.push(COMMA));
    lemma_split_append(a + seq![COMMA], b, COMMA);
    assert(split(a + seq![COMMA] + b, COMMA) =~= seq![a, b]);
    lemma_split_separator(a + seq![COMMA] + b, COMMA);
    assert(a + seq![COMMA] + b + seq![COMMA] =~= (a + seq![COMMA] + b).push(COMMA));
    lemma_split_append(a + seq![COMMA] + b + seq![COMMA], c, COMMA);
    let fields = split(line, COMMA);
    assert(fields =~= seq![a, b, c]);
    assert forall|i: int| 0 <= i < fields.len() implies (#[trigger] number_of(
        fields[i],
    )).is_some() by {}
    assert(numbers_of(line).unwrap() =~= seq![first, second, third]);

    assert(line.last() == c.last());
    assert forall|i: int| 0 <= i < line.len() implies line[i] != NEWLINE by {
        if i < a.len() {
            assert(line[i] == a[i]);
        } else if i == a.len() {
        } else if i < a.len() + 1 + b.len() {
            assert(line[i] == b[i - a.len() - 1]);
        } else if i == a.len() + 1 + b.len() {
        } else {
            assert(line[i] == c[i - a.len() - b.len() - 2]);
        }
    }
}

/// The text of a scenario splits into its lines, and an empty piece after
/// the last newline.
pub proof fn lemma_printed_splits(scenario: ScenarioView, upto: int)
    requires
        0 <= upto <= scenario.weights.len(),
        scenario.sizes.len() == scenario.weights.len(),
        scenario.costs.len() == scenario.weights.len(),
    ensures
        split(
            line_of(scenario.number_of_objects, scenario.max_weight, scenario.max_size)
                + object_lines(scenario, upto),
            NEWLINE,
        ) == printed_lines(scenario, upto).push(Seq::<u8>::empty()),
    decreases upto,
{
    let header = line_of(scenario.number_of_objects, scenario.max_weight, scenario.max_size);
    if upto == 0 {
        let fields = fields_of(
            scenario.number_of_objects,
            scenario.max_weight,
            scenario.max_size,
        );
        lemma_fields_read_back(scenario.number_of_objects, scenario.max_weight, scenario.max_size);
        lemma_split_append(Seq::<u8>::empty(), fields, NEWLINE);
        assert(Seq::<u8>::empty() + fields =~= fields);
        lemma_split_separator(fields, NEWLINE);
        assert(header =~= fields.push(NEWLINE));
        assert(header + object_lines(scenario, 0) =~= header);
        assert(split(header, NEWLINE) =~= printed_lines(scenario, 0).push(Seq::<u8>::empty()));
    } else {
        let fields = fields_of(
            scenario.weights[upto - 1],
            scenario.sizes[upto - 1],
            scenario.costs[upto - 1],
        );
        let before = header + object_lines(scenario, upto - 1);
        lemma_printed_splits(scenario, upto - 1);
        lemma_fields_read_back(
            scenario.weights[upto - 1],
            scenario.sizes[upto - 1],
            scenario.costs[upto - 1],
        );
        lemma_split_append(before, fields, NEWLINE);
        lemma_split_separator(before + fields, NEWLINE);
        assert(header + object_lines(scenario, upto) =~= (before + fields).push(NEWLINE));
        let pieces = split(before, NEWLINE);
        assert(pieces.last() + fields =~= fields);
        assert(pieces.update(pieces.len() - 1, fields).push(Seq::<u8>::empty())
            =~= printed_lines(scenario, upto).push(Seq::<u8>::empty()));
    }
}

/// What is written of a scenario without fault loads as that scenario.
pub proof fn lemma_printed_loads(scenario: ScenarioView)
    requires
        scenario.sizes.len() == scenario.weights.len(),
        scenario.costs.len() == scenario.weights.len(),
        scenario.fault().is_none(),
    ensures
        loaded(printed(scenario)) == Ok::<ScenarioView, ScenarioError>(scenario),
{
    let objects = scenario.weights.len() as int;
    let expected = printed_lines(scenario, objects);
    lemma_printed_splits(scenario, objects);
    let found = lines_of(printed(scenario));
    assert forall|i: int| 0 <= i < expected.len() implies {
        &&& without_return(#[trigger] expected[i]) == expected[i]
        &&& numbers_of(expected[i]) == Some(
            if i == 0 {
                seq![scenario.number_of_objects, scenario.max_weight, scenario.max_size]
            } else {
                seq![scenario.weights[i - 1], scenario.sizes[i - 1], scenario.costs[i - 1]]
            },
        )
    } by {
        if i == 0 {
            lemma_fields_read_back(
                scenario.number_of_objects,
                scenario.max_weight,
                scenario.max_size,
            );
        } else {
            lemma_fields_read_back(
                scenario.weights[i - 1],
                scenario.sizes[i - 1],
                scenario.costs[i - 1],
            );
        }
    }
    assert(found =~= expected);
    lemma_no_fault(found, found.len() as int);
    assert(column(found, 0) =~= scenario.weights);
    assert(column(found, 1) =~= scenario.sizes);
    assert(column(found, 2) =~= scenario.costs);
}

/// Lines that each hold three numbers are without fault.
pub proof fn lemma_no_fault(lines: Seq<Seq<u8>>, upto: int)
    requires
        0 <= upto <= lines.len(),
        forall|i: int|
            0 <= i < lines.len() ==> (#[trigger] numbers_of(lines[i])).is_some() && numbers_of(
                lines[i],
            ).unwrap().len() == 3,
    ensures
        first_fault(lines, upto).is_none(),
    decreases upto,
{
    if upto > 0 {
        lemma_no_fault(lines, upto - 1);
    }
}

} // verus!
