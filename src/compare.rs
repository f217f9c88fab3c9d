use crate::value::{same_text, ValueType};
use vstd::arithmetic::power::pow;
use vstd::prelude::*;

verus! {

/// How two floating-point numbers of one width stand to each other.
#[derive(Clone, Copy, Debug, PartialEq, Eq, Structural)]
pub enum FloatOrder {
    /// The first is smaller, and not within the tolerance of the second.
    Below,
    /// They lie within the width's machine epsilon of each other.
    Close,
    /// The first is larger, and not within the tolerance of the second.
    Above,
    /// At least one of them is not a number.
    Unordered,
}

/// Two bit patterns of floating-point numbers of the same width.
#[derive(Clone, Copy, Debug, PartialEq, Eq, Structural)]
pub enum FloatPair {
    Single(u32, u32),
    Double(u64, u64),
}

/// How a decimal number is to be read.
#[derive(Clone, Copy, Debug, PartialEq, Eq, Structural)]
pub enum FloatSyntax {
    /// As a 32-bit float.
    Single,
    /// As a 64-bit float.
    Double,
    /// As a 64-bit float, narrowed to 32 bits when its magnitude fits.
    Auto,
}

/// An arithmetic operation on two floats.
#[derive(Clone, Copy, Debug, PartialEq, Eq, Structural)]
pub enum Arith {
    Sum,
    Difference,
}

/// The floating-point semantics applied to the two float variants. The library holds no
/// floating-point code of its own: whoever runs it supplies these three functions.
/// `parse` reads a decimal number (a `Float32` for `Single`, a `Float64` for `Double`,
/// either for `Auto`), `order` compares two numbers with the tolerance of their width,
/// `arith` returns the bit pattern of their sum or difference. All three must be total
/// and give one answer for one question.
pub struct FloatOps<P, O, A> {
    pub parse: P,
    pub order: O,
    pub arith: A,
}

impl<P, O, A> FloatOps<P, O, A> where
    P: Fn(Vec<char>, FloatSyntax) -> Option<ValueType>,
    O: Fn(FloatPair) -> FloatOrder,
    A: Fn(FloatPair, Arith) -> u64,
 {
    /// The three functions are total and deterministic.
    pub open spec fn wf(&self) -> bool {
        &&& forall|t: Vec<char>, s: FloatSyntax| #[trigger] self.parse.requires((t, s))
        &&& forall|t1: Vec<char>, t2: Vec<char>, s: FloatSyntax, r1: Option<ValueType>, r2: Option<ValueType>|
            t1@ == t2@ && #[trigger] self.parse.ensures((t1, s), r1) && #[trigger] self.parse.ensures(
                (t2, s),
                r2,
            ) ==> r1 == r2
        &&& forall|p: FloatPair| #[trigger] self.order.requires((p,))
        &&& forall|p: FloatPair, a: FloatOrder, b: FloatOrder|
            #[trigger] self.order.ensures((p,), a) && #[trigger] self.order.ensures((p,), b) ==> a
                == b
        &&& forall|p: FloatPair, op: Arith| #[trigger] self.arith.requires((p, op))
        &&& forall|p: FloatPair, op: Arith, a: u64, b: u64|
            #[trigger] self.arith.ensures((p, op), a) && #[trigger] self.arith.ensures((p, op), b)
                ==> a == b
    }

    /// `parse` may answer `r` for the text `t`.
    pub open spec fn parses_to(&self, t: Seq<char>, s: FloatSyntax, r: Option<ValueType>) -> bool {
        exists|v: Vec<char>| v@ == t && #[trigger] self.parse.ensures((v, s), r)
    }

    /// What `parse` answers for the text `t`.
    pub open spec fn parse_of(&self, t: Seq<char>, s: FloatSyntax) -> Option<ValueType> {
        choose|r: Option<ValueType>| #[trigger] self.parses_to(t, s, r)
    }

    /// What `order` answers for `p`.
    pub open spec fn order_of(&self, p: FloatPair) -> FloatOrder {
        choose|o: FloatOrder| #[trigger] self.order.ensures((p,), o)
    }

    /// What `arith` answers for `p` and `op`.
    pub open spec fn arith_of(&self, p: FloatPair, op: Arith) -> u64 {
        choose|x: u64| #[trigger] self.arith.ensures((p, op), x)
    }

    pub fn parse_float(&self, t: Vec<char>, s: FloatSyntax) -> (r: Option<ValueType>)
        requires
            self.wf(),
        ensures
            r == self.parse_of(t@, s),
    {
        let ghost tv = t@;
        let r = (self.parse)(t, s);
        proof {
            assert(self.parses_to(tv, s, r));
            let c = self.parse_of(tv, s);
            let v = choose|v: Vec<char>| v@ == tv && #[trigger] self.parse.ensures((v, s), c);
        }
        r
    }

    pub fn order(&self, p: FloatPair) -> (r: FloatOrder)
        requires
            self.wf(),
        ensures
            r == self.order_of(p),
    {
        let r = (self.order)(p);
        proof {
            assert(self.order.ensures((p,), self.order_of(p)));
        }
        r
    }

    pub fn arith(&self, p: FloatPair, op: Arith) -> (r: u64)
        requires
            self.wf(),
        ensures
            r == self.arith_of(p, op),
    {
        let r = (self.arith)(p, op);
        proof {
            assert(self.arith.ensures((p, op), self.arith_of(p, op)));
        }
        r
    }
}

/// The ways a candidate's new value may be required to relate to its old value and to
/// the operator's input.
#[derive(Clone, Copy, Debug, PartialEq, Eq, Structural)]
pub enum ScanMode {
    Exact,
    Changed,
    Unchanged,
    Increased,
    IncreasedOrGreater,
    IncreasedBy,
    Decreased,
    DecreasedOrLess,
    DecreasedBy,
}

impl<P, O, A> FloatOps<P, O, A> where
    P: Fn(Vec<char>, FloatSyntax) -> Option<ValueType>,
    O: Fn(FloatPair) -> FloatOrder,
    A: Fn(FloatPair, Arith) -> u64,
 {
    /// The two float bit patterns of `a` and `b`, when both are floats of one width.
    pub open spec fn float_pair(a: ValueType, b: ValueType) -> Option<FloatPair> {
        match (a, b) {
            (ValueType::Float32(x), ValueType::Float32(y)) => Some(FloatPair::Single(x, y)),
            (ValueType::Float64(x), ValueType::Float64(y)) => Some(FloatPair::Double(x, y)),
            _ => None,
        }
    }

    /// `a` equals `b`: the same integer or boolean, or floats of one width within its
    /// tolerance.
    pub open spec fn equal_values(&self, a: ValueType, b: ValueType) -> bool {
        match Self::float_pair(a, b) {
            Some(p) => self.order_of(p) == FloatOrder::Close,
            None => !a.is_float() && a == b,
        }
    }

    /// `a` is strictly greater than `b`, both of one variant (`true` above `false`).
    pub open spec fn greater_values(&self, a: ValueType, b: ValueType) -> bool {
        match Self::float_pair(a, b) {
            Some(p) => self.order_of(p) == FloatOrder::Above,
            None => !a.is_float() && a.same_tag(b) && a.num() > b.num(),
        }
    }

    /// `a` is strictly less than `b`, both of one variant (`false` below `true`).
    pub open spec fn less_values(&self, a: ValueType, b: ValueType) -> bool {
        match Self::float_pair(a, b) {
            Some(p) => self.order_of(p) == FloatOrder::Below,
            None => !a.is_float() && a.same_tag(b) && a.num() < b.num(),
        }
    }

    /// `a + b` within one variant: integers wrap modulo their width, booleans take the
    /// disjunction; `None` for two different variants.
    pub open spec fn sum_of(&self, a: ValueType, b: ValueType) -> Option<ValueType> {
        if !a.same_tag(b) {
            None
        } else {
            match (a, b) {
                (ValueType::Float32(x), ValueType::Float32(y)) => Some(
                    ValueType::Float32(self.arith_of(FloatPair::Single(x, y), Arith::Sum) as u32),
                ),
                (ValueType::Float64(x), ValueType::Float64(y)) => Some(
                    ValueType::Float64(self.arith_of(FloatPair::Double(x, y), Arith::Sum)),
                ),
                (ValueType::Bool(x), ValueType::Bool(y)) => Some(ValueType::Bool(x || y)),
                _ => Some(a.with_raw(((a.raw() + b.raw()) as int % pow(256, a.width())) as nat)),
            }
        }
    }

    /// `a - b` within one variant: integers wrap modulo their width, booleans give
    /// `a && !b`; `None` for two different variants.
    pub open spec fn difference_of(&self, a: ValueType, b: ValueType) -> Option<ValueType> {
        if !a.same_tag(b) {
            None
        } else {
            match (a, b) {
                (ValueType::Float32(x), ValueType::Float32(y)) => Some(
                    ValueType::Float32(
                        self.arith_of(FloatPair::Single(x, y), Arith::Difference) as u32,
                    ),
                ),
                (ValueType::Float64(x), ValueType::Float64(y)) => Some(
                    ValueType::Float64(self.arith_of(FloatPair::Double(x, y), Arith::Difference)),
                ),
                (ValueType::Bool(x), ValueType::Bool(y)) => Some(ValueType::Bool(x && !y)),
                _ => Some(
                    a.with_raw(
                        ((a.raw() + pow(256, a.width()) - b.raw()) % pow(256, a.width())) as nat,
                    ),
                ),
            }
        }
    }

    /// Whether a candidate whose value went from `old` to `new` passes `mode` for the
    /// input `inp`.
    pub open spec fn passes(&self, mode: ScanMode, old: ValueType, new: ValueType, inp: ValueType) -> bool {
        match mode {
            ScanMode::Exact => self.equal_values(new, inp),
            ScanMode::Changed => !self.equal_values(new, old),
            ScanMode::Unchanged => self.equal_values(new, old),
            ScanMode::Increased => self.greater_values(new, old),
            ScanMode::IncreasedOrGreater => self.greater_values(new, old) || self.equal_values(
                new,
                old,
            ),
            ScanMode::IncreasedBy => match self.sum_of(old, inp) {
                Some(v) => self.equal_values(new, v),
                None => false,
            },
            ScanMode::Decreased => self.less_values(new, old),
            ScanMode::DecreasedOrLess => self.less_values(new, old) || self.equal_values(new, old),
            ScanMode::DecreasedBy => match self.difference_of(old, inp) {
                Some(v) => self.equal_values(new, v),
                None => false,
            },
        }
    }
}

/// `256` to the power `n`.
fn modulus(n: usize) -> (r: u128)
    requires
        n <= 8,
    ensures
        r == pow(256, n as nat),
{
    let mut r: u128 = 1;
    let mut i: usize = 0;
    proof {
        reveal(pow);
    }
    while i < n
        invariant
            i <= n <= 8,
            r == pow(256, i as nat),
        decreases n - i,
    {
        proof {
            vstd::arithmetic::power::lemma_pow_increases(256, i as nat, 8);
            assert(pow(256, 8) == 0x1_0000_0000_0000_0000) by {
                reveal_with_fuel(pow, 9);
            }
            assert(pow(256, (i + 1) as nat) == 256 * pow(256, i as nat)) by {
                reveal(pow);
            }
        }
        r = r * 256;
        i = i + 1;
    }
    r
}

/// `a + b` or `a - b` on two integers of one variant, wrapping modulo its width.
fn wrapped(a: &ValueType, b: &ValueType, op: Arith) -> (r: ValueType)
    requires
        a.same_tag(*b),
    ensures
        r == a.with_raw(
            (match op {
                Arith::Sum => (a.raw() + b.raw()) as int % pow(256, a.width()),
                Arith::Difference => (a.raw() + pow(256, a.width()) - b.raw()) % pow(
                    256,
                    a.width(),
                ),
            }) as nat,
        ),
{
    let n = ValueType::type_size(a);
    let m = modulus(n);
    let ra = ValueType::raw_of(a) as u128;
    let rb = ValueType::raw_of(b) as u128;
    proof {
        vstd::arithmetic::power::lemma_pow_increases(256, n as nat, 8);
        reveal_with_fuel(pow, 9);
    }
    let s = match op {
        Arith::Sum => (ra + rb) % m,
        Arith::Difference => (ra + m - rb) % m,
    };
    ValueType::from_raw(s as u64, a)
}

impl ValueType {
    pub fn equals<P, O, A>(&self, o: &ValueType, fl: &FloatOps<P, O, A>) -> (r: bool) where
        P: Fn(Vec<char>, FloatSyntax) -> Option<ValueType>,
        O: Fn(FloatPair) -> FloatOrder,
        A: Fn(FloatPair, Arith) -> u64,

        requires
            fl.wf(),
        ensures
            r == fl.equal_values(*self, *o),
    {
        match (self, o) {
            (ValueType::Float32(x), ValueType::Float32(y)) => fl.order(
                FloatPair::Single(*x, *y),
            ) == FloatOrder::Close,
            (ValueType::Float64(x), ValueType::Float64(y)) => fl.order(
                FloatPair::Double(*x, *y),
            ) == FloatOrder::Close,
            (ValueType::Float32(_), _) | (ValueType::Float64(_), _) => false,
            _ => *self == *o,
        }
    }

    pub fn greater<P, O, A>(&self, o: &ValueType, fl: &FloatOps<P, O, A>) -> (r: bool) where
        P: Fn(Vec<char>, FloatSyntax) -> Option<ValueType>,
        O: Fn(FloatPair) -> FloatOrder,
        A: Fn(FloatPair, Arith) -> u64,

        requires
            fl.wf(),
        ensures
            r == fl.greater_values(*self, *o),
    {
        match (self, o) {
            (ValueType::Int8(a), ValueType::Int8(b)) => a > b,
            (ValueType::UInt8(a), ValueType::UInt8(b)) => a > b,
            (ValueType::Int16(a), ValueType::Int16(b)) => a > b,
            (ValueType::UInt16(a), ValueType::UInt16(b)) => a > b,
            (ValueType::Int32(a), ValueType::Int32(b)) => a > b,
            (ValueType::UInt32(a), ValueType::UInt32(b)) => a > b,
            (ValueType::Int64(a), ValueType::Int64(b)) => a > b,
            (ValueType::UInt64(a), ValueType::UInt64(b)) => a > b,
            (ValueType::Float32(a), ValueType::Float32(b)) => fl.order(
                FloatPair::Single(*a, *b),
            ) == FloatOrder::Above,
            (ValueType::Float64(a), ValueType::Float64(b)) => fl.order(
                FloatPair::Double(*a, *b),
            ) == FloatOrder::Above,
            (ValueType::Size(a), ValueType::Size(b)) => a > b,
            (ValueType::Pointer(a), ValueType::Pointer(b)) => a > b,
            (ValueType::Bool(a), ValueType::Bool(b)) => *a && !*b,
            _ => false,
        }
    }

    pub fn less<P, O, A>(&self, o: &ValueType, fl: &FloatOps<P, O, A>) -> (r: bool) where
        P: Fn(Vec<char>, FloatSyntax) -> Option<ValueType>,
        O: Fn(FloatPair) -> FloatOrder,
        A: Fn(FloatPair, Arith) -> u64,

        requires
            fl.wf(),
        ensures
            r == fl.less_values(*self, *o),
    {
        match (self, o) {
            (ValueType::Int8(a), ValueType::Int8(b)) => a < b,
            (ValueType::UInt8(a), ValueType::UInt8(b)) => a < b,
            (ValueType::Int16(a), ValueType::Int16(b)) => a < b,
            (ValueType::UInt16(a), ValueType::UInt16(b)) => a < b,
            (ValueType::Int32(a), ValueType::Int32(b)) => a < b,
            (ValueType::UInt32(a), ValueType::UInt32(b)) => a < b,
            (ValueType::Int64(a), ValueType::Int64(b)) => a < b,
            (ValueType::UInt64(a), ValueType::UInt64(b)) => a < b,
            (ValueType::Float32(a), ValueType::Float32(b)) => fl.order(
                FloatPair::Single(*a, *b),
            ) == FloatOrder::Below,
            (ValueType::Float64(a), ValueType::Float64(b)) => fl.order(
                FloatPair::Double(*a, *b),
            ) == FloatOrder::Below,
            (ValueType::Size(a), ValueType::Size(b)) => a < b,
            (ValueType::Pointer(a), ValueType::Pointer(b)) => a < b,
            (ValueType::Bool(a), ValueType::Bool(b)) => !*a && *b,
            _ => false,
        }
    }

    pub fn add<P, O, A>(&self, o: &ValueType, fl: &FloatOps<P, O, A>) -> (r: Option<ValueType>) where
        P: Fn(Vec<char>, FloatSyntax) -> Option<ValueType>,
        O: Fn(FloatPair) -> FloatOrder,
        A: Fn(FloatPair, Arith) -> u64,

        requires
            fl.wf(),
        ensures
            r == fl.sum_of(*self, *o),
    {
        if ValueType::tag_of(self) != ValueType::tag_of(o) {
            return None;
        }
        match (self, o) {
            (ValueType::Float32(a), ValueType::Float32(b)) => Some(
                ValueType::Float32(fl.arith(FloatPair::Single(*a, *b), Arith::Sum) as u32),
            ),
            (ValueType::Float64(a), ValueType::Float64(b)) => Some(
                ValueType::Float64(fl.arith(FloatPair::Double(*a, *b), Arith::Sum)),
            ),
            (ValueType::Bool(a), ValueType::Bool(b)) => Some(ValueType::Bool(*a || *b)),
            _ => Some(wrapped(self, o, Arith::Sum)),
        }
    }

    pub fn sub<P, O, A>(&self, o: &ValueType, fl: &FloatOps<P, O, A>) -> (r: Option<ValueType>) where
        P: Fn(Vec<char>, FloatSyntax) -> Option<ValueType>,
        O: Fn(FloatPair) -> FloatOrder,
        A: Fn(FloatPair, Arith) -> u64,

        requires
            fl.wf(),
        ensures
            r == fl.difference_of(*self, *o),
    {
        if ValueType::tag_of(self) != ValueType::tag_of(o) {
            return None;
        }
        match (self, o) {
            (ValueType::Float32(a), ValueType::Float32(b)) => Some(
                ValueType::Float32(fl.arith(FloatPair::Single(*a, *b), Arith::Difference) as u32),
            ),
            (ValueType::Float64(a), ValueType::Float64(b)) => Some(
                ValueType::Float64(fl.arith(FloatPair::Double(*a, *b), Arith::Difference)),
            ),
            (ValueType::Bool(a), ValueType::Bool(b)) => Some(ValueType::Bool(*a && !*b)),
            _ => Some(wrapped(self, o, Arith::Difference)),
        }
    }

    pub fn comparator<P, O, A>(
        mode: &ScanMode,
        old: &ValueType,
        new: &ValueType,
        inp: &ValueType,
        fl: &FloatOps<P, O, A>,
    ) -> (r: bool) where
        P: Fn(Vec<char>, FloatSyntax) -> Option<ValueType>,
        O: Fn(FloatPair) -> FloatOrder,
        A: Fn(FloatPair, Arith) -> u64,

        requires
            fl.wf(),
        ensures
            r == fl.passes(*mode, *old, *new, *inp),
    {
        match mode {
            ScanMode::Exact => new.equals(inp, fl),
            ScanMode::Changed => !new.equals(old, fl),
            ScanMode::Unchanged => new.equals(old, fl),
            ScanMode::Increased => new.greater(old, fl),
            ScanMode::IncreasedOrGreater => new.greater(old, fl) || new.equals(old, fl),
            ScanMode::IncreasedBy => match old.add(inp, fl) {
                Some(v) => new.equals(&v, fl),
                None => false,
            },
            ScanMode::Decreased => new.less(old, fl),
            ScanMode::DecreasedOrLess => new.less(old, fl) || new.equals(old, fl),
            ScanMode::DecreasedBy => match old.sub(inp, fl) {
                Some(v) => new.equals(&v, fl),
                None => false,
            },
        }
    }
}

impl ScanMode {
    /// The label the operator picks this mode by.
    pub open spec fn label(self) -> Seq<char> {
        match self {
            ScanMode::Exact => "Exact"@,
            ScanMode::Changed => "Changed"@,
            ScanMode::Unchanged => "Unchanged"@,
            ScanMode::Increased => "Increased"@,
            ScanMode::IncreasedOrGreater => "Increased or Greater"@,
            ScanMode::IncreasedBy => "Increased by"@,
            ScanMode::Decreased => "Decreased"@,
            ScanMode::DecreasedOrLess => "Decreased or Less"@,
            ScanMode::DecreasedBy => "Decreased by"@,
        }
    }

    pub fn name(&self) -> (r: &'static str)
        ensures
            r@ == self.label(),
    {
        match self {
            ScanMode::Exact => "Exact",
            ScanMode::Changed => "Changed",
            ScanMode::Unchanged => "Unchanged",
            ScanMode::Increased => "Increased",
            ScanMode::IncreasedOrGreater => "Increased or Greater",
            ScanMode::IncreasedBy => "Increased by",
            ScanMode::Decreased => "Decreased",
            ScanMode::DecreasedOrLess => "Decreased or Less",
            ScanMode::DecreasedBy => "Decreased by",
        }
    }

    /// The mode whose label is `s`.
    pub fn from_name(s: &str) -> (r: Option<ScanMode>)
        ensures
            r is Some ==> r->0.label() == s@,
            r is None ==> forall|m: ScanMode| m.label() != s@,
    {
        let all = [
            ScanMode::Exact,
            ScanMode::Changed,
            ScanMode::Unchanged,
            ScanMode::Increased,
            ScanMode::IncreasedOrGreater,
            ScanMode::IncreasedBy,
            ScanMode::Decreased,
            ScanMode::DecreasedOrLess,
            ScanMode::DecreasedBy,
        ];
        let mut i: usize = 0;
        while i < 9
            invariant
                i <= 9,
                all@ == seq![
                    ScanMode::Exact,
                    ScanMode::Changed,
                    ScanMode::Unchanged,
                    ScanMode::Increased,
                    ScanMode::IncreasedOrGreater,
                    ScanMode::IncreasedBy,
                    ScanMode::Decreased,
                    ScanMode::DecreasedOrLess,
                    ScanMode::DecreasedBy,
                ],
                forall|j: int| 0 <= j < i ==> all@[j].label() != s@,
            decreases 9 - i,
        {
            if same_text(all[i].name(), s) {
                return Some(all[i]);
            }
            i = i + 1;
        }
        proof {
            assert forall|m: ScanMode| m.label() != s@ by {
                match m {
                    ScanMode::Exact => assert(all@[0] == m),
                    ScanMode::Changed => assert(all@[1] == m),
                    ScanMode::Unchanged => assert(all@[2] == m),
                    ScanMode::Increased => assert(all@[3] == m),
                    ScanMode::IncreasedOrGreater => assert(all@[4] == m),
                    ScanMode::IncreasedBy => assert(all@[5] == m),
                    ScanMode::Decreased => assert(all@[6] == m),
                    ScanMode::DecreasedOrLess => assert(all@[7] == m),
                    ScanMode::DecreasedBy => assert(all@[8] == m),
                }
            }
        }
        None
    }
}

} // verus!
