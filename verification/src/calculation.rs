//! The calculation: a chain of operands joined by pending operations, and
//! what each input does to it.

use vstd::prelude::*;
use vstd::string::{StrSliceExecFns, StringExecFns};
use crate::decimal::{
    difference_of, is_plain, parsed, product_of, quotient_of, sum_of, Decimal, DecimalView,
    MAGNITUDE_LIMIT,
};
use crate::numeric_value::{lemma_reading_zero, EntryView, NumericValue};
use crate::text::{
    is_plain_decimal, lemma_nat_text_digits, lemma_numeral_parts, lemma_word_text_len,
    nat_text, number_text,
};

verus! {

/// The number of significant digits at which every result is computed.
pub const PRECISION: usize = 30;

/// What joins one operand to the next. `Equals` is an input only: it asks for
/// the result and is never held by an operand.
#[derive(Clone, Copy, Debug, PartialEq, Eq)]
pub enum Operation {
    Division,
    Multiplication,
    Subtraction,
    Addition,
    Equals,
}

impl Operation {
    /// The sign that shows the operation.
    pub open spec fn glyph(self) -> Seq<char> {
        match self {
            Operation::Addition => "+"@,
            Operation::Subtraction => "-"@,
            Operation::Multiplication => "⨉"@,
            Operation::Division => "÷"@,
            Operation::Equals => "＝"@,
        }
    }

    /// The sign that shows the operation.
    pub fn to_text(&self) -> (r: String)
        ensures
            r@ == self.glyph(),
    {
        match self {
            Operation::Addition => String::from_str("+"),
            Operation::Subtraction => String::from_str("-"),
            Operation::Multiplication => String::from_str("⨉"),
            Operation::Division => String::from_str("÷"),
            Operation::Equals => String::from_str("＝"),
        }
    }
}

/// The mathematical content of an [`OperandValue`].
pub enum ValueView {
    Number(EntryView),
    Undefined,
}

impl ValueView {
    /// What the value shows.
    pub open spec fn text(self) -> Seq<char> {
        match self {
            ValueView::Number(e) => e.text(),
            ValueView::Undefined => "Undefined"@,
        }
    }

    /// A number with nothing typed behind it.
    pub open spec fn number(value: DecimalView) -> ValueView {
        ValueView::Number(EntryView::plain(value))
    }
}

/// The mathematical content of an [`Operand`].
pub struct OperandView {
    pub operation: Option<Operation>,
    pub value: ValueView,
}

impl OperandView {
    /// What the operand shows: its value, then the sign of its operation.
    pub open spec fn text(self) -> Seq<char> {
        match self.operation {
            Some(op) => self.value.text() + op.glyph(),
            None => self.value.text(),
        }
    }

    /// Zero, with no operation.
    pub open spec fn zero() -> OperandView {
        OperandView { operation: None, value: ValueView::Number(EntryView::zero()) }
    }
}

/// What a chain of operands shows: the operands one after another.
pub open spec fn expression_text(operands: Seq<OperandView>) -> Seq<char>
    decreases operands.len(),
{
    if operands.len() == 0 {
        Seq::empty()
    } else {
        expression_text(operands.drop_last()) + operands.last().text()
    }
}

/// A result of rounded arithmetic as an operand value, if a [`Decimal`] can
/// hold it.
pub open spec fn checked(value: DecimalView) -> Option<ValueView> {
    if value.well_formed() {
        Some(ValueView::number(value))
    } else {
        None
    }
}

/// `a op v` at [`PRECISION`] significant digits. Division by zero gives
/// `Undefined`. There is no value if no [`Decimal`] can hold the result, nor
/// for `Equals`, which combines nothing.
pub open spec fn combined(a: DecimalView, op: Operation, v: DecimalView) -> Option<ValueView> {
    match op {
        Operation::Addition => checked(sum_of(a, v, PRECISION as nat)),
        Operation::Subtraction => checked(difference_of(a, v, PRECISION as nat)),
        Operation::Multiplication => checked(product_of(a, v, PRECISION as nat)),
        Operation::Division => if v.is_zero() {
            Some(ValueView::Undefined)
        } else {
            checked(quotient_of(a, v, PRECISION as nat))
        },
        Operation::Equals => None,
    }
}

/// One step of the evaluation: the accumulator and the operation carried
/// over from the operand before, met by the next operand.
pub open spec fn step(acc: ValueView, carried: Option<Operation>, operand: OperandView) -> Option<
    (ValueView, Option<Operation>),
> {
    match (acc, operand.value) {
        (ValueView::Number(a), ValueView::Number(v)) => match carried {
            Some(op) => match combined(a.value, op, v.value) {
                Some(value) => Some((value, operand.operation)),
                None => None,
            },
            None => Some((operand.value, operand.operation)),
        },
        _ => Some((ValueView::Undefined, None)),
    }
}

/// The evaluation of a chain from left to right, with no precedence among
/// the operations: the value reached and the operation of the last operand.
/// An `Undefined` value, once met or produced, stays. There is no result if
/// some step has none.
pub open spec fn folded(operands: Seq<OperandView>) -> Option<(ValueView, Option<Operation>)>
    decreases operands.len(),
{
    if operands.len() == 0 {
        Some((ValueView::Number(EntryView::zero()), None))
    } else {
        match folded(operands.drop_last()) {
            Some((acc, carried)) => step(acc, carried, operands.last()),
            None => None,
        }
    }
}

/// The mathematical content of a [`Calculation`].
pub struct CalculationView {
    pub past_operands: Seq<OperandView>,
    pub operands: Seq<OperandView>,
}

impl CalculationView {
    /// One operand, zero, and nothing evaluated.
    pub open spec fn initial() -> CalculationView {
        CalculationView { past_operands: Seq::empty(), operands: seq![OperandView::zero()] }
    }

    /// The same calculation with one more operand.
    pub open spec fn pushed(self, operand: OperandView) -> CalculationView {
        CalculationView { operands: self.operands.push(operand), ..self }
    }

    /// The same calculation without its last operand.
    pub open spec fn popped(self) -> CalculationView {
        CalculationView { operands: self.operands.drop_last(), ..self }
    }

    /// The same calculation with another last operand.
    pub open spec fn with_last(self, operand: OperandView) -> CalculationView {
        CalculationView { operands: self.operands.drop_last().push(operand), ..self }
    }

    /// Whether nothing is pending on the last operand: there is none, or it
    /// has an operation, so that what is typed next starts a new operand.
    pub open spec fn starts_operand(self) -> bool {
        self.operands.len() == 0 || self.operands.last().operation is Some
    }

    /// Whether there is nothing of the user's to lose: no operand, or a
    /// result just evaluated, or a single operand with no operation that is
    /// `Undefined` or a zero that no input has touched.
    pub open spec fn is_empty(self) -> bool {
        ||| self.operands.len() == 0
        ||| self.past_operands.len() > 0
        ||| self.operands.len() == 1 && self.operands[0].operation is None && {
            ||| self.operands[0].value == ValueView::Number(EntryView::zero())
            ||| self.operands[0].value is Undefined
        }
    }

    /// What is shown of the chain being typed.
    pub open spec fn current_text(self) -> Seq<char> {
        expression_text(self.operands)
    }

    /// What is shown of the chain that was evaluated last.
    pub open spec fn past_text(self) -> Seq<char> {
        expression_text(self.past_operands)
    }

    /// Whether `num` can be typed: there is no operand; or the last operand
    /// is a number and either has an operation, so that a new operand
    /// starts, or has room in its numeral for the digits. Nothing can be
    /// typed behind an `Undefined` value.
    pub open spec fn accepts_number(self, num: nat) -> bool {
        self.operands.len() == 0 || match self.operands.last().value {
            ValueView::Number(e) => self.operands.last().operation is Some || e.text().len()
                + nat_text(num).len() <= MAGNITUDE_LIMIT,
            ValueView::Undefined => false,
        }
    }

    /// Typing `num`: a new operand after an operation; else its digits are
    /// written behind what the last operand shows, zeros behind the decimal
    /// point too, and the operand becomes what is then read.
    pub open spec fn append_number(self, num: nat) -> CalculationView {
        if self.starts_operand() {
            self.pushed(
                OperandView { operation: None, value: ValueView::number(parsed(nat_text(num))) },
            )
        } else {
            match self.operands.last().value {
                ValueView::Number(e) => self.with_last(
                    OperandView {
                        operation: None,
                        value: ValueView::Number(EntryView::reading(e.text() + nat_text(num))),
                    },
                ),
                ValueView::Undefined => self,
            }
        }
    }

    /// Whether the decimal point can be typed: there is no operand, or the
    /// last operand is a number. Nothing can be typed behind an `Undefined`
    /// value.
    pub open spec fn accepts_comma(self) -> bool {
        self.operands.len() == 0 || self.operands.last().value is Number
    }

    /// Typing the decimal point: a new operand `0.` after an operation; else
    /// the last operand is marked, and keeps its value and what it shows
    /// behind the point.
    pub open spec fn add_comma(self) -> CalculationView {
        if self.starts_operand() {
            self.pushed(
                OperandView {
                    operation: None,
                    value: ValueView::Number(
                        EntryView { value: DecimalView::zero(), comma: true, zeros: 0 },
                    ),
                },
            )
        } else {
            match self.operands.last().value {
                ValueView::Number(e) => self.with_last(
                    OperandView {
                        operation: None,
                        value: ValueView::Number(EntryView { comma: true, ..e }),
                    },
                ),
                ValueView::Undefined => self,
            }
        }
    }

    /// Choosing an operation: the last operand takes it, in place of the one
    /// it had, and the evaluated chain is forgotten.
    pub open spec fn append_operation(self, op: Operation) -> CalculationView {
        CalculationView {
            past_operands: Seq::empty(),
            operands: if self.operands.len() == 0 {
                self.operands
            } else {
                self.operands.drop_last().push(
                    OperandView { operation: Some(op), value: self.operands.last().value },
                )
            },
        }
    }

    /// What an entry shows without its last character.
    pub open spec fn shortened(e: EntryView) -> Seq<char> {
        e.text().drop_last()
    }

    /// The entry left when the last character of `e` is removed: what the
    /// rest is read as, or zero if nothing is left. The decimal point stays
    /// when the last digit behind it went.
    pub open spec fn trimmed(e: EntryView) -> EntryView {
        let rest = Self::shortened(e);
        EntryView::reading(
            if rest.len() == 0 {
                seq!['0']
            } else {
                rest
            },
        )
    }

    /// Whether the last input can be taken back: what is left of the last
    /// operand's numeral can be read again.
    pub open spec fn accepts_removal(self) -> bool {
        self.operands.len() == 0 || self.operands.last().operation is Some
            || match self.operands.last().value {
            ValueView::Number(e) => {
                ||| e == EntryView::zero()
                ||| Self::shortened(e).len() == 0
                ||| (is_plain_decimal(Self::shortened(e)) && Self::shortened(e).len()
                    <= MAGNITUDE_LIMIT)
            },
            ValueView::Undefined => true,
        }
    }

    /// Taking back the last input: the operation of the last operand if it
    /// has one; else an `Undefined` value becomes zero; else the last
    /// character of the numeral goes. An operand behind others leaves the
    /// chain when it is zero already, or when no character is left.
    pub open spec fn remove_last(self) -> CalculationView {
        if self.operands.len() == 0 {
            self
        } else if self.operands.last().operation is Some {
            self.with_last(OperandView { operation: None, value: self.operands.last().value })
        } else {
            match self.operands.last().value {
                ValueView::Undefined => self.with_last(OperandView::zero()),
                ValueView::Number(e) => if e == EntryView::zero() {
                    if self.operands.len() > 1 {
                        self.popped()
                    } else {
                        self
                    }
                } else if Self::shortened(e).len() == 0 && self.operands.len() > 1 {
                    self.popped()
                } else {
                    self.with_last(
                        OperandView {
                            operation: None,
                            value: ValueView::Number(Self::trimmed(e)),
                        },
                    )
                },
            }
        }
    }

    /// Whether the chain can be evaluated: there is nothing to combine, or
    /// every step has a result.
    pub open spec fn can_calculate(self) -> bool {
        self.operands.len() <= 1 || folded(self.operands) is Some
    }

    /// Evaluating the chain: with two operands or more, the chain becomes
    /// the evaluated chain, and its value the only operand.
    pub open spec fn calculate(self) -> CalculationView {
        if self.operands.len() <= 1 {
            self
        } else {
            CalculationView {
                past_operands: self.operands,
                operands: seq![
                    OperandView { operation: None, value: folded(self.operands).unwrap().0 },
                ],
            }
        }
    }
}


/// The value of an operand: a number, or what a division by zero leaves.
#[derive(Debug, PartialEq)]
pub enum OperandValue {
    Number(NumericValue),
    Undefined,
}

impl View for OperandValue {
    type V = ValueView;

    open spec fn view(&self) -> ValueView {
        match self {
            OperandValue::Number(n) => ValueView::Number(n@),
            OperandValue::Undefined => ValueView::Undefined,
        }
    }
}

impl Clone for OperandValue {
    fn clone(&self) -> (r: Self)
        ensures
            r@ == self@,
    {
        match self {
            OperandValue::Number(n) => OperandValue::Number(n.clone()),
            OperandValue::Undefined => OperandValue::Undefined,
        }
    }
}

impl Default for OperandValue {
    fn default() -> (r: Self)
        ensures
            r@ == ValueView::Number(EntryView::zero()),
    {
        OperandValue::Number(NumericValue::default())
    }
}

impl OperandValue {
    /// What the value shows.
    pub fn to_text(&self) -> (r: String)
        ensures
            r@ == self@.text(),
    {
        match self {
            OperandValue::Number(n) => n.to_text(),
            OperandValue::Undefined => String::from_str("Undefined"),
        }
    }
}

/// A value and the operation that joins it to the next operand.
#[derive(Debug, PartialEq)]
pub struct Operand {
    operation: Option<Operation>,
    value: OperandValue,
}

impl View for Operand {
    type V = OperandView;

    closed spec fn view(&self) -> OperandView {
        OperandView { operation: self.operation, value: self.value@ }
    }
}

impl Clone for Operand {
    fn clone(&self) -> (r: Self)
        ensures
            r@ == self@,
    {
        Operand { operation: self.operation, value: self.value.clone() }
    }
}

impl Default for Operand {
    fn default() -> (r: Self)
        ensures
            r@ == OperandView::zero(),
    {
        Operand { operation: None, value: OperandValue::default() }
    }
}

impl Operand {
    pub fn new(operation: Option<Operation>, value: OperandValue) -> (r: Self)
        ensures
            r@ == (OperandView { operation, value: value@ }),
    {
        Operand { operation, value }
    }

    /// The operation that joins this operand to the next, if one is chosen.
    pub fn operation(&self) -> (r: Option<Operation>)
        ensures
            r == self@.operation,
    {
        self.operation
    }

    pub fn value(&self) -> (r: &OperandValue)
        ensures
            r@ == self@.value,
    {
        &self.value
    }

    /// What the operand shows.
    pub fn to_text(&self) -> (r: String)
        ensures
            r@ == self@.text(),
    {
        let text = self.value.to_text();
        match self.operation {
            Some(op) => {
                let glyph = op.to_text();
                text.concat(glyph.as_str())
            },
            None => text,
        }
    }
}

/// The operands of `v`, each as its mathematical content.
pub open spec fn operand_views(v: Seq<Operand>) -> Seq<OperandView> {
    Seq::new(v.len(), |i: int| v[i]@)
}

/// A copy of a chain of operands.
fn clone_operands(v: &Vec<Operand>) -> (r: Vec<Operand>)
    ensures
        operand_views(r@) == operand_views(v@),
{
    let mut r: Vec<Operand> = Vec::new();
    let mut i: usize = 0;
    while i < v.len()
        invariant
            i <= v.len(),
            r@.len() == i,
            forall|k: int| 0 <= k < i ==> (#[trigger] r@[k])@ == v@[k]@,
        decreases v.len() - i,
    {
        r.push(v[i].clone());
        i += 1;
    }
    r
}

/// What a chain of operands shows.
fn chain_text(v: &Vec<Operand>) -> (r: String)
    ensures
        r@ == expression_text(operand_views(v@)),
{
    let mut r = String::new();
    let mut i: usize = 0;
    let ghost views = operand_views(v@);
    while i < v.len()
        invariant
            i <= v.len(),
            views == operand_views(v@),
            r@ == expression_text(views.take(i as int)),
        decreases v.len() - i,
    {
        let text = v[i].to_text();
        proof {
            assert(views.take(i + 1).drop_last() =~= views.take(i as int));
        }
        r.append(text.as_str());
        i += 1;
    }
    assert(views.take(v.len() as int) =~= views);
    r
}

/// `a op v` at [`PRECISION`] significant digits.
pub fn combine(a: &Decimal, op: Operation, v: &Decimal) -> (r: Option<OperandValue>)
    ensures
        r is Some <==> combined(a@, op, v@) is Some,
        r is Some ==> r.unwrap()@ == combined(a@, op, v@).unwrap(),
{
    let result = match op {
        Operation::Addition => a.sum(v, PRECISION),
        Operation::Subtraction => a.difference(v, PRECISION),
        Operation::Multiplication => a.product(v, PRECISION),
        Operation::Division => {
            if v.is_zero() {
                return Some(OperandValue::Undefined);
            }
            a.quotient(v, PRECISION)
        },
        Operation::Equals => None,
    };
    match result {
        Some(value) => Some(OperandValue::Number(NumericValue::new(value))),
        None => None,
    }
}

/// Evaluates a chain of operands from left to right; `None` if some step
/// has no result.
pub fn try_calculate(operands: &[Operand]) -> (r: Option<(OperandValue, Option<Operation>)>)
    ensures
        r is Some <==> folded(operand_views(operands@)) is Some,
        r is Some ==> (r.unwrap().0@, r.unwrap().1) == folded(operand_views(operands@)).unwrap(),
{
    let ghost views = operand_views(operands@);
    let mut acc = OperandValue::default();
    let mut carried: Option<Operation> = None;
    let mut i: usize = 0;
    while i < operands.len()
        invariant
            i <= operands.len(),
            views == operand_views(operands@),
            folded(views.take(i as int)) == Some((acc@, carried)),
        decreases operands.len() - i,
    {
        let operand = &operands[i];
        proof {
            assert(views.take(i + 1).drop_last() =~= views.take(i as int));
        }
        match (&acc, &operand.value) {
            (OperandValue::Number(a), OperandValue::Number(v)) => {
                match carried {
                    Some(op) => {
                        match combine(a.val(), op, v.val()) {
                            Some(value) => {
                                acc = value;
                            },
                            None => {
                                proof {
                                    lemma_folded_prefix(views, i + 1);
                                }
                                return None;
                            },
                        }
                    },
                    None => {
                        acc = operand.value.clone();
                    },
                }
                carried = operand.operation;
            },
            _ => {
                acc = OperandValue::Undefined;
                carried = None;
            },
        }
        i += 1;
    }
    assert(views.take(operands.len() as int) =~= views);
    Some((acc, carried))
}

/// If a chain can be evaluated, so can every chain that it begins with.
pub proof fn lemma_folded_prefix(operands: Seq<OperandView>, n: int)
    requires
        0 <= n <= operands.len(),
        folded(operands.take(n)) is None,
    ensures
        folded(operands) is None,
    decreases operands.len(),
{
    if n < operands.len() {
        assert(operands.drop_last().take(n) =~= operands.take(n));
        lemma_folded_prefix(operands.drop_last(), n);
    } else {
        assert(operands.take(n) =~= operands);
    }
}

/// Evaluates a chain of operands from left to right.
pub fn calculate(operands: &[Operand]) -> (r: (OperandValue, Option<Operation>))
    requires
        folded(operand_views(operands@)) is Some,
    ensures
        (r.0@, r.1) == folded(operand_views(operands@)).unwrap(),
{
    try_calculate(operands).unwrap()
}

/// A chain of operands being typed, and the chain that was evaluated last.
#[derive(Debug, PartialEq)]
pub struct Calculation {
    past_operands: Vec<Operand>,
    operands: Vec<Operand>,
}

impl View for Calculation {
    type V = CalculationView;

    closed spec fn view(&self) -> CalculationView {
        CalculationView {
            past_operands: operand_views(self.past_operands@),
            operands: operand_views(self.operands@),
        }
    }
}

impl Clone for Calculation {
    fn clone(&self) -> (r: Self)
        ensures
            r@ == self@,
    {
        Calculation {
            past_operands: clone_operands(&self.past_operands),
            operands: clone_operands(&self.operands),
        }
    }
}

impl Default for Calculation {
    fn default() -> (r: Self)
        ensures
            r@ == CalculationView::initial(),
    {
        let mut operands: Vec<Operand> = Vec::new();
        operands.push(Operand::default());
        let r = Calculation { past_operands: Vec::new(), operands };
        assert(r@.operands =~= seq![OperandView::zero()]);
        assert(r@.past_operands =~= Seq::empty());
        r
    }
}


impl Calculation {
    /// A calculation of the given chains.
    pub fn new(past_operands: Vec<Operand>, operands: Vec<Operand>) -> (r: Self)
        ensures
            r@ == (CalculationView {
                past_operands: operand_views(past_operands@),
                operands: operand_views(operands@),
            }),
    {
        Calculation { past_operands, operands }
    }

    /// The chain being typed.
    pub fn operands(&self) -> (r: &Vec<Operand>)
        ensures
            operand_views(r@) == self@.operands,
    {
        &self.operands
    }

    /// The chain that was evaluated last; empty if an operation was chosen
    /// since.
    pub fn past_operands(&self) -> (r: &Vec<Operand>)
        ensures
            operand_views(r@) == self@.past_operands,
    {
        &self.past_operands
    }

    /// Puts `operand` in the place of the last operand.
    fn replace_last(&mut self, operand: Operand)
        requires
            old(self)@.operands.len() > 0,
        ensures
            final(self)@ == old(self)@.with_last(operand@),
    {
        self.operands.pop();
        self.operands.push(operand);
        assert(self@.operands =~= old(self)@.operands.drop_last().push(operand@));
    }

    /// Evaluates the chain, which must be one that can be evaluated. A chain
    /// of two operands or more becomes the evaluated chain, and the value of
    /// the whole of it the only operand; a shorter one stays as it is.
    pub fn calculate(&mut self)
        requires
            old(self)@.can_calculate(),
        ensures
            final(self)@ == old(self)@.calculate(),
            old(self)@.operands.len() <= 1 ==> final(self)@ == old(self)@,
            old(self)@.operands.len() >= 2 ==> {
                &&& final(self)@.past_operands == old(self)@.operands
                &&& final(self)@.past_text() == old(self)@.current_text()
                &&& final(self)@.operands == seq![
                    OperandView {
                        operation: None,
                        value: folded(old(self)@.operands).unwrap().0,
                    },
                ]
            },
    {
        if self.operands.len() <= 1 {
            return ;
        }
        let (value, _) = calculate(self.operands.as_slice());
        let mut operands: Vec<Operand> = Vec::new();
        operands.push(Operand { operation: None, value });
        assert(operand_views(operands@) =~= seq![operands@[0]@]);
        std::mem::swap(&mut self.operands, &mut operands);
        self.past_operands = operands;
    }

    /// Evaluates the chain if it can be evaluated, and says whether it could;
    /// if not, nothing changes.
    pub fn evaluate(&mut self) -> (done: bool)
        ensures
            done == old(self)@.can_calculate(),
            done ==> final(self)@ == old(self)@.calculate(),
            !done ==> final(self)@ == old(self)@,
    {
        if self.operands.len() > 1 && try_calculate(self.operands.as_slice()).is_none() {
            return false;
        }
        self.calculate();
        true
    }

    /// Whether there is nothing of the user's to lose.
    pub fn is_empty(&self) -> (r: bool)
        ensures
            r == self@.is_empty(),
    {
        if self.operands.len() == 0 || self.past_operands.len() != 0 {
            return true;
        }
        if self.operands.len() > 1 {
            return false;
        }
        let operand = &self.operands[0];
        operand.operation.is_none() && match &operand.value {
            OperandValue::Number(n) => n.is_default(),
            OperandValue::Undefined => true,
        }
    }

    /// What is shown of the chain being typed.
    pub fn current_operation_string(&self) -> (r: String)
        ensures
            r@ == self@.current_text(),
    {
        chain_text(&self.operands)
    }

    /// What is shown of the chain that was evaluated last.
    pub fn past_operations_string(&self) -> (r: String)
        ensures
            r@ == self@.past_text(),
    {
        chain_text(&self.past_operands)
    }

    /// Whether nothing is pending on the last operand.
    fn starts_operand(&self) -> (r: bool)
        ensures
            r == self@.starts_operand(),
    {
        let n = self.operands.len();
        if n == 0 {
            return true;
        }
        self.operands[n - 1].operation.is_some()
    }

    /// Whether [`Calculation::append_number`] can be called with `num`.
    pub fn accepts_number(&self, num: usize) -> (r: bool)
        ensures
            r == self@.accepts_number(num as nat),
    {
        let n = self.operands.len();
        if n == 0 {
            return true;
        }
        let last = &self.operands[n - 1];
        match &last.value {
            OperandValue::Number(e) => {
                if last.operation.is_some() {
                    return true;
                }
                let shown = e.to_text().as_str().unicode_len();
                let typed = number_text(num).as_str().unicode_len();
                typed <= MAGNITUDE_LIMIT && shown <= MAGNITUDE_LIMIT - typed
            },
            OperandValue::Undefined => false,
        }
    }

    /// Types `num`. The last value is a number afterwards, and nothing else
    /// in the chain has changed.
    pub fn append_number(&mut self, num: usize)
        requires
            old(self)@.accepts_number(num as nat),
        ensures
            final(self)@ == old(self)@.append_number(num as nat),
            final(self)@.past_operands == old(self)@.past_operands,
            final(self)@.operands.len() == if old(self)@.starts_operand() {
                old(self)@.operands.len() + 1
            } else {
                old(self)@.operands.len()
            },
            final(self)@.operands.last().operation is None,
            final(self)@.operands.last().value is Number,
    {
        let digits = number_text(num);
        proof {
            lemma_nat_text_digits(num as nat);
            lemma_word_text_len(num);
        }
        if self.starts_operand() {
            proof {
                lemma_numeral_parts(false, digits@, None);
            }
            let value = Decimal::parse(digits.as_str()).unwrap();
            self.operands.push(
                Operand { operation: None, value: OperandValue::Number(NumericValue::new(value)) },
            );
            assert(self@.operands =~= old(self)@.operands.push(self.operands@.last()@));
            return ;
        }
        let n = self.operands.len();
        match &self.operands[n - 1].value {
            OperandValue::Number(e) => {
                let text = e.to_text().concat(digits.as_str());
                proof {
                    e@.lemma_text_with_digits(digits@);
                }
                let entry = NumericValue::read(text.as_str()).unwrap();
                self.replace_last(Operand { operation: None, value: OperandValue::Number(entry) });
            },
            // An `Undefined` value takes no input: the precondition leaves it out.
            OperandValue::Undefined => {},
        }
    }

    /// Whether [`Calculation::add_comma`] can be called.
    pub fn accepts_comma(&self) -> (r: bool)
        ensures
            r == self@.accepts_comma(),
    {
        let n = self.operands.len();
        if n == 0 {
            return true;
        }
        match &self.operands[n - 1].value {
            OperandValue::Number(_) => true,
            OperandValue::Undefined => false,
        }
    }

    /// Types the decimal point. The number that takes it keeps its value.
    pub fn add_comma(&mut self)
        requires
            old(self)@.accepts_comma(),
        ensures
            final(self)@ == old(self)@.add_comma(),
            final(self)@.past_operands == old(self)@.past_operands,
            final(self)@.operands.last().value matches ValueView::Number(e) && e.comma && e.value
                == if old(self)@.starts_operand() {
                DecimalView::zero()
            } else {
                old(self)@.operands.last().value->Number_0.value
            },
    {
        if self.starts_operand() {
            self.operands.push(
                Operand {
                    operation: None,
                    value: OperandValue::Number(NumericValue::new_with_comma(Decimal::zero())),
                },
            );
            assert(self@.operands =~= old(self)@.operands.push(self.operands@.last()@));
            return ;
        }
        let n = self.operands.len();
        match &self.operands[n - 1].value {
            OperandValue::Number(e) => {
                let entry = e.with_comma();
                self.replace_last(Operand { operation: None, value: OperandValue::Number(entry) });
            },
            // An `Undefined` value takes no input: the precondition leaves it out.
            OperandValue::Undefined => {},
        }
    }

    /// Chooses the operation that joins the last operand to the next. The
    /// evaluated chain is forgotten; the values stay.
    pub fn append_operation(&mut self, op: Operation)
        requires
            op != Operation::Equals,
        ensures
            final(self)@ == old(self)@.append_operation(op),
            final(self)@.past_operands.len() == 0,
            final(self)@.operands.len() == old(self)@.operands.len(),
            old(self)@.operands.len() > 0 ==> final(self)@.operands.last() == (OperandView {
                operation: Some(op),
                value: old(self)@.operands.last().value,
            }),
    {
        match self.operands.pop() {
            Some(last) => {
                self.operands.push(Operand { operation: Some(op), value: last.value });
            },
            None => {},
        }
        self.past_operands = Vec::new();
        assert(self@.operands =~= old(self)@.append_operation(op).operands);
        assert(self@.past_operands =~= Seq::empty());
    }

    /// Whether [`Calculation::remove_last`] can be called.
    pub fn accepts_removal(&self) -> (r: bool)
        ensures
            r == self@.accepts_removal(),
    {
        let n = self.operands.len();
        if n == 0 {
            return true;
        }
        let last = &self.operands[n - 1];
        if last.operation.is_some() {
            return true;
        }
        match &last.value {
            OperandValue::Number(e) => {
                if e.is_default() {
                    return true;
                }
                let text = e.to_text();
                proof {
                    e@.lemma_text_parts();
                }
                let len = text.as_str().unicode_len();
                let rest = text.as_str().substring_char(0, len - 1);
                len == 1 || (len - 1 <= MAGNITUDE_LIMIT && is_plain(rest))
            },
            OperandValue::Undefined => true,
        }
    }

    /// Takes back the last input. At most one operand leaves the chain, and
    /// never the only one; the fresh calculation stays as it is.
    pub fn remove_last(&mut self)
        requires
            old(self)@.accepts_removal(),
        ensures
            final(self)@ == old(self)@.remove_last(),
            final(self)@.past_operands == old(self)@.past_operands,
            final(self)@.operands.len() <= old(self)@.operands.len(),
            old(self)@.operands.len() - final(self)@.operands.len() <= 1,
            old(self)@.operands.len() >= 1 ==> final(self)@.operands.len() >= 1,
            old(self)@.operands == seq![OperandView::zero()] ==> final(self)@ == old(self)@,
    {
        let n = self.operands.len();
        if n == 0 {
            return ;
        }
        let last = &self.operands[n - 1];
        if last.operation.is_some() {
            let value = last.value.clone();
            self.replace_last(Operand { operation: None, value });
            return ;
        }
        match &last.value {
            OperandValue::Undefined => {
                self.replace_last(Operand::default());
            },
            OperandValue::Number(e) => {
                if e.is_default() {
                    if n > 1 {
                        self.operands.pop();
                        assert(self@.operands =~= old(self)@.operands.drop_last());
                    }
                    return ;
                }
                let text = e.to_text();
                proof {
                    e@.lemma_text_parts();
                }
                let len = text.as_str().unicode_len();
                let rest = text.as_str().substring_char(0, len - 1);
                if len == 1 && n > 1 {
                    self.operands.pop();
                    assert(self@.operands =~= old(self)@.operands.drop_last());
                    return ;
                }
                let entry = if len == 1 {
                    proof {
                        lemma_reading_zero();
                    }
                    NumericValue::default()
                } else {
                    NumericValue::read(rest).unwrap()
                };
                self.replace_last(
                    Operand { operation: None, value: OperandValue::Number(entry) },
                );
            },
        }
    }
}

} // verus!
