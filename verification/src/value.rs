//! The runtime value model: a closed tagged union with arithmetic,
//! comparison, and truthiness rules.
//!
//! Floating-point values are outside the verified core, so the union has no
//! float variant; every other variant of the language's value set is here.

use vstd::prelude::*;

verus! {

use vstd::string::StrSliceExecFns;
use vstd::string::StringExecFns;

/// A runtime value of the language.
///
/// `Unknown` is the wildcard: it matches any pattern and any condition.
/// `Function` names an entry of the interpreter's function table.
#[derive(Debug)]
pub enum Value {
    Int(u8),
    String(String),
    Char(char),
    Array(Vec<Value>),
    Bool(bool),
    Function(String),
    Unit,
    Unknown,
}

/// The mathematical image of a `Value`: strings become character sequences,
/// arrays become sequences of images.
pub ghost enum SpecValue {
    Int(u8),
    String(Seq<char>),
    Char(char),
    Array(Seq<SpecValue>),
    Bool(bool),
    Function(Seq<char>),
    Unit,
    Unknown,
}

/// The mathematical image of one value.
pub open spec fn spec_value(v: Value) -> SpecValue
    decreases v,
{
    match v {
        Value::Int(i) => SpecValue::Int(i),
        Value::String(s) => SpecValue::String(s@),
        Value::Char(c) => SpecValue::Char(c),
        Value::Array(items) => SpecValue::Array(spec_value_views(items@)),
        Value::Bool(b) => SpecValue::Bool(b),
        Value::Function(name) => SpecValue::Function(name@),
        Value::Unit => SpecValue::Unit,
        Value::Unknown => SpecValue::Unknown,
    }
}

/// The images of a sequence of values, element by element.
pub open spec fn spec_value_views(items: Seq<Value>) -> Seq<SpecValue>
    decreases items,
{
    if items.len() == 0 {
        Seq::empty()
    } else {
        spec_value_views(items.drop_last()).push(spec_value(items.last()))
    }
}

impl View for Value {
    type V = SpecValue;

    open spec fn view(&self) -> SpecValue {
        spec_value(*self)
    }
}

/// `spec_value_views` indexes pointwise.
pub proof fn lemma_value_views_index(items: Seq<Value>, i: int)
    requires
        0 <= i < items.len(),
    ensures
        spec_value_views(items).len() == items.len(),
        spec_value_views(items)[i] == items[i]@,
    decreases items.len(),
{
    if items.len() > 0 {
        lemma_value_views_len(items.drop_last());
        if i < items.len() - 1 {
            lemma_value_views_index(items.drop_last(), i);
            assert(items.drop_last()[i] == items[i]);
        } else {
            assert(items.last() == items[i]);
        }
    }
}

/// `spec_value_views` has the length of its argument.
pub proof fn lemma_value_views_len(items: Seq<Value>)
    ensures
        spec_value_views(items).len() == items.len(),
    decreases items.len(),
{
    if items.len() > 0 {
        lemma_value_views_len(items.drop_last());
        assert(items.drop_last().len() == items.len() - 1);
        assert(spec_value_views(items) == spec_value_views(items.drop_last()).push(
            items.last()@,
        ));
    }
}

/// Truthiness of a value: nonzero integers, nonempty strings and arrays,
/// non-NUL characters, `true`, functions and the wildcard are true; `Unit`
/// is false.
pub open spec fn spec_as_bool(v: SpecValue) -> bool {
    match v {
        SpecValue::Int(i) => i != 0,
        SpecValue::String(s) => s.len() != 0,
        SpecValue::Char(c) => c != '\0',
        SpecValue::Array(a) => a.len() != 0,
        SpecValue::Bool(b) => b,
        SpecValue::Function(_) => true,
        SpecValue::Unit => false,
        SpecValue::Unknown => true,
    }
}

/// The 8-bit cell value a value coerces to, where one is defined: integers
/// are themselves, characters their code point truncated to 8 bits, `Unit`
/// and the wildcard are 0.  `Bool` maps `true` to 0 and `false` to 1 — the
/// inverse of its truthiness, kept as the language defines it.  Strings,
/// arrays and functions have no numeric coercion.
pub open spec fn spec_as_num(v: SpecValue) -> Option<u8> {
    match v {
        SpecValue::Int(i) => Some(i),
        SpecValue::Char(c) => Some((c as u32) as u8),
        SpecValue::Bool(b) => Some(
            if b {
                0
            } else {
                1
            },
        ),
        SpecValue::Unit => Some(0),
        SpecValue::Unknown => Some(0),
        _ => None,
    }
}

/// 8-bit wrapping addition.
pub open spec fn spec_wrap_add(i: u8, j: u8) -> u8 {
    ((i + j) % 256) as u8
}

/// 8-bit wrapping subtraction.
pub open spec fn spec_wrap_sub(i: u8, j: u8) -> u8 {
    (((i - j) % 256 + 256) % 256) as u8
}

/// 8-bit wrapping multiplication.
pub open spec fn spec_wrap_mul(i: u8, j: u8) -> u8 {
    ((i * j) % 256) as u8
}

/// The elements of `s`, repeated `n` times over, in order.
pub open spec fn spec_repeat(s: Seq<SpecValue>, n: nat) -> Seq<SpecValue>
    decreases n,
{
    if n == 0 {
        Seq::empty()
    } else {
        spec_repeat(s, (n - 1) as nat) + s
    }
}

/// Logical conjunction: the truthiness of both operands, always defined.
pub open spec fn spec_and(a: SpecValue, b: SpecValue) -> Option<SpecValue> {
    Some(SpecValue::Bool(spec_as_bool(a) && spec_as_bool(b)))
}

/// Logical disjunction: the truthiness of either operand, always defined.
pub open spec fn spec_or(a: SpecValue, b: SpecValue) -> Option<SpecValue> {
    Some(SpecValue::Bool(spec_as_bool(a) || spec_as_bool(b)))
}

/// Addition: integers add with wraparound; strings concatenate; any other
/// pairing is undefined.
pub open spec fn spec_add(a: SpecValue, b: SpecValue) -> Option<SpecValue> {
    match (a, b) {
        (SpecValue::Int(i), SpecValue::Int(j)) => Some(SpecValue::Int(spec_wrap_add(i, j))),
        (SpecValue::String(s), SpecValue::String(t)) => Some(SpecValue::String(s + t)),
        _ => None,
    }
}

/// Subtraction: integers subtract with wraparound; anything else is
/// undefined.
pub open spec fn spec_sub(a: SpecValue, b: SpecValue) -> Option<SpecValue> {
    match (a, b) {
        (SpecValue::Int(i), SpecValue::Int(j)) => Some(SpecValue::Int(spec_wrap_sub(i, j))),
        _ => None,
    }
}

/// Multiplication: integers multiply with wraparound; an array times an
/// integer repeats the array's elements that many times; a boolean times an
/// integer maps `true` to 1 and `false` to 0 first.
pub open spec fn spec_mul(a: SpecValue, b: SpecValue) -> Option<SpecValue> {
    match (a, b) {
        (SpecValue::Int(i), SpecValue::Int(j)) => Some(SpecValue::Int(spec_wrap_mul(i, j))),
        (SpecValue::Array(s), SpecValue::Int(i)) => Some(SpecValue::Array(spec_repeat(s, i as nat))),
        (SpecValue::Bool(b0), SpecValue::Int(i)) => Some(
            SpecValue::Int(
                if b0 {
                    i
                } else {
                    0
                },
            ),
        ),
        _ => None,
    }
}

/// Division: integers divide truncating toward zero; a zero divisor is
/// undefined, as is any other pairing.
pub open spec fn spec_div(a: SpecValue, b: SpecValue) -> Option<SpecValue> {
    match (a, b) {
        (SpecValue::Int(i), SpecValue::Int(j)) => if j == 0 {
            None
        } else {
            Some(SpecValue::Int((i / j) as u8))
        },
        _ => None,
    }
}

/// Remainder: defined for integers with a nonzero divisor only.
pub open spec fn spec_modulus(a: SpecValue, b: SpecValue) -> Option<SpecValue> {
    match (a, b) {
        (SpecValue::Int(i), SpecValue::Int(j)) => if j == 0 {
            None
        } else {
            Some(SpecValue::Int((i % j) as u8))
        },
        _ => None,
    }
}

/// The image of an optional value.
pub open spec fn spec_opt_value(r: Option<Value>) -> Option<SpecValue> {
    match r {
        Some(v) => Some(spec_value(v)),
        None => None,
    }
}

impl Value {
    /// Truthiness, as `spec_as_bool` states it.
    pub fn as_bool(&self) -> (r: bool)
        ensures
            r == spec_as_bool(self@),
    {
        match self {
            Value::Int(i) => *i != 0,
            Value::String(s) => !s.as_str().is_empty(),
            Value::Char(c) => *c != '\0',
            Value::Array(a) => a.len() != 0,
            Value::Bool(b) => *b,
            Value::Function(_) => true,
            Value::Unit => false,
            Value::Unknown => true,
        }
    }

    /// The numeric coercion where it is defined, `None` where it is not.
    pub fn as_num_opt(&self) -> (r: Option<u8>)
        ensures
            r == spec_as_num(self@),
    {
        match self {
            Value::Int(i) => Some(*i),
            Value::Char(c) => Some((*c as u32) as u8),
            Value::Bool(b) => Some(
                if *b {
                    0
                } else {
                    1
                },
            ),
            Value::Unit => Some(0),
            Value::Unknown => Some(0),
            _ => None,
        }
    }

    /// The numeric coercion, for values that have one.
    pub fn as_num(&self) -> (r: u8)
        requires
            spec_as_num(self@) is Some,
        ensures
            Some(r) == spec_as_num(self@),
    {
        match self.as_num_opt() {
            Some(n) => n,
            None => 0,
        }
    }

    /// Logical conjunction, as `spec_and` states it.
    pub fn and(&self, other: &Value) -> (r: Option<Value>)
        ensures
            spec_opt_value(r) == spec_and(self@, other@),
    {
        Some(Value::Bool(self.as_bool() && other.as_bool()))
    }

    /// Logical disjunction, as `spec_or` states it.
    pub fn or(&self, other: &Value) -> (r: Option<Value>)
        ensures
            spec_opt_value(r) == spec_or(self@, other@),
    {
        Some(Value::Bool(self.as_bool() || other.as_bool()))
    }

    /// Addition, as `spec_add` states it.
    pub fn add(&self, other: &Value) -> (r: Option<Value>)
        ensures
            spec_opt_value(r) == spec_add(self@, other@),
    {
        match (self, other) {
            (Value::Int(i), Value::Int(j)) => Some(Value::Int(i.wrapping_add(*j))),
            (Value::String(s), Value::String(t)) => {
                let joined = String::from_str(s.as_str()).concat(t.as_str());
                Some(Value::String(joined))
            },
            _ => None,
        }
    }

    /// Subtraction, as `spec_sub` states it.
    pub fn sub(&self, other: &Value) -> (r: Option<Value>)
        ensures
            spec_opt_value(r) == spec_sub(self@, other@),
    {
        match (self, other) {
            (Value::Int(i), Value::Int(j)) => Some(Value::Int(i.wrapping_sub(*j))),
            _ => None,
        }
    }

    /// Multiplication, as `spec_mul` states it.
    pub fn mul(&self, other: &Value) -> (r: Option<Value>)
        ensures
            spec_opt_value(r) == spec_mul(self@, other@),
    {
        match (self, other) {
            (Value::Int(i), Value::Int(j)) => Some(Value::Int(i.wrapping_mul(*j))),
            (Value::Array(a), Value::Int(i)) => Some(Value::repeat_array(clone_values(a), *i)),
            (Value::Bool(b), Value::Int(i)) => Some(
                Value::Int(
                    if *b {
                        *i
                    } else {
                        0
                    },
                ),
            ),
            _ => None,
        }
    }

    /// Division, as `spec_div` states it.
    pub fn div(&self, other: &Value) -> (r: Option<Value>)
        ensures
            spec_opt_value(r) == spec_div(self@, other@),
    {
        match (self, other) {
            (Value::Int(i), Value::Int(j)) => if *j == 0 {
                None
            } else {
                Some(Value::Int(*i / *j))
            },
            _ => None,
        }
    }

    /// Remainder, as `spec_modulus` states it.
    pub fn modulus(&self, other: &Value) -> (r: Option<Value>)
        ensures
            spec_opt_value(r) == spec_modulus(self@, other@),
    {
        match (self, other) {
            (Value::Int(i), Value::Int(j)) => if *j == 0 {
                None
            } else {
                Some(Value::Int(*i % *j))
            },
            _ => None,
        }
    }

    /// An array made of `array`'s elements repeated `repeat` times over.
    pub fn repeat_array(array: Vec<Value>, repeat: u8) -> (r: Value)
        ensures
            r@ == SpecValue::Array(spec_repeat(spec_value_views(array@), repeat as nat)),
    {
        let ghost s = spec_value_views(array@);
        let mut out: Vec<Value> = Vec::new();
        let mut round: u8 = 0;
        proof {
            lemma_value_views_len(array@);
        }
        while round < repeat
            invariant
                round <= repeat,
                s == spec_value_views(array@),
                s.len() == array@.len(),
                spec_value_views(out@) == spec_repeat(s, round as nat),
            decreases repeat - round,
        {
            let mut i: usize = 0;
            while i < array.len()
                invariant
                    i <= array.len(),
                    round < repeat,
                    s == spec_value_views(array@),
                    s.len() == array@.len(),
                    spec_value_views(out@) == spec_repeat(s, round as nat) + s.subrange(0, i as int),
                decreases array.len() - i,
            {
                let item = array[i].clone();
                proof {
                    lemma_value_views_index(array@, i as int);
                    lemma_value_views_push(out@, item);
                }
                out.push(item);
                proof {
                    assert(spec_value_views(out@) =~= spec_repeat(s, round as nat) + s.subrange(
                        0,
                        i + 1,
                    ));
                }
                i = i + 1;
            }
            proof {
                assert(s.subrange(0, s.len() as int) =~= s);
                assert(spec_repeat(s, (round + 1) as nat) == spec_repeat(s, round as nat) + s);
            }
            round = round + 1;
        }
        Value::Array(out)
    }
}

/// Appending one value extends the pointwise image by that value's image.
pub proof fn lemma_value_views_push(items: Seq<Value>, v: Value)
    ensures
        spec_value_views(items.push(v)) == spec_value_views(items).push(spec_value(v)),
{
    assert(items.push(v).drop_last() =~= items);
    assert(items.push(v).last() == v);
}

/// A deep copy of each element of `items`, preserving every image.
pub fn clone_values(items: &Vec<Value>) -> (r: Vec<Value>)
    ensures
        spec_value_views(r@) == spec_value_views(items@),
        r@.len() == items@.len(),
    decreases items,
{
    let mut out: Vec<Value> = Vec::new();
    let mut i: usize = 0;
    proof {
        lemma_value_views_len(items@);
    }
    while i < items.len()
        invariant
            i <= items.len(),
            spec_value_views(items@).len() == items@.len(),
            out@.len() == i,
            spec_value_views(out@) == spec_value_views(items@).subrange(0, i as int),
        decreases items.len() - i,
    {
        let item = items[i].clone();
        proof {
            lemma_value_views_index(items@, i as int);
            lemma_value_views_push(out@, item);
        }
        out.push(item);
        proof {
            assert(spec_value_views(out@) =~= spec_value_views(items@).subrange(0, i + 1));
        }
        i = i + 1;
    }
    proof {
        assert(spec_value_views(items@).subrange(0, items@.len() as int) =~= spec_value_views(
            items@,
        ));
    }
    out
}

/// The place of a value's variant in the total order on values.
pub open spec fn spec_rank(v: SpecValue) -> int {
    match v {
        SpecValue::Int(_) => 0,
        SpecValue::String(_) => 1,
        SpecValue::Char(_) => 2,
        SpecValue::Array(_) => 3,
        SpecValue::Bool(_) => 4,
        SpecValue::Function(_) => 5,
        SpecValue::Unit => 6,
        SpecValue::Unknown => 7,
    }
}

/// Three-way lexicographic order on character sequences, by code point:
/// negative, zero or positive as `a` sorts before, equal to or after `b`.
pub open spec fn spec_cmp_chars(a: Seq<char>, b: Seq<char>) -> int
    decreases a.len(),
{
    if a.len() == 0 && b.len() == 0 {
        0
    } else if a.len() == 0 {
        -1
    } else if b.len() == 0 {
        1
    } else if (a[0] as u32) < (b[0] as u32) {
        -1
    } else if (b[0] as u32) < (a[0] as u32) {
        1
    } else {
        spec_cmp_chars(a.drop_first(), b.drop_first())
    }
}

/// Three-way total order on values: by variant rank first, then within a
/// variant by number, code point, lexicographic element order, or
/// `false < true`.  `Unit` and `Unknown` values are each equal among
/// themselves.
pub open spec fn spec_cmp_values(a: SpecValue, b: SpecValue) -> int
    decreases a,
{
    if spec_rank(a) != spec_rank(b) {
        if spec_rank(a) < spec_rank(b) {
            -1
        } else {
            1
        }
    } else {
        match (a, b) {
            (SpecValue::Int(i), SpecValue::Int(j)) => if i < j {
                -1
            } else if j < i {
                1
            } else {
                0
            },
            (SpecValue::String(s), SpecValue::String(t)) => spec_cmp_chars(s, t),
            (SpecValue::Char(c), SpecValue::Char(d)) => if (c as u32) < (d as u32) {
                -1
            } else if (d as u32) < (c as u32) {
                1
            } else {
                0
            },
            (SpecValue::Array(x), SpecValue::Array(y)) => spec_cmp_seq(x, y),
            (SpecValue::Bool(p), SpecValue::Bool(q)) => if p == q {
                0
            } else if !p {
                -1
            } else {
                1
            },
            (SpecValue::Function(s), SpecValue::Function(t)) => spec_cmp_chars(s, t),
            _ => 0,
        }
    }
}

/// Three-way lexicographic order on value sequences.
pub open spec fn spec_cmp_seq(x: Seq<SpecValue>, y: Seq<SpecValue>) -> int
    decreases x,
{
    if x.len() == 0 && y.len() == 0 {
        0
    } else if x.len() == 0 {
        -1
    } else if y.len() == 0 {
        1
    } else {
        let c = spec_cmp_values(x[0], y[0]);
        if c != 0 {
            c
        } else {
            spec_cmp_seq(x.drop_first(), y.drop_first())
        }
    }
}

/// Two character sequences compare as equal exactly when they are equal.
pub proof fn lemma_cmp_chars_eq(a: Seq<char>, b: Seq<char>)
    ensures
        (spec_cmp_chars(a, b) == 0) <==> (a == b),
    decreases a.len(),
{
    if a.len() == 0 && b.len() == 0 {
        assert(a =~= b);
    }
    if a.len() != 0 && b.len() != 0 && (a[0] as u32) == (b[0] as u32) {
        vstd::utf8::char_u32_cast(a[0], a[0] as u32);
        vstd::utf8::char_u32_cast(b[0], b[0] as u32);
        assert(a[0] == b[0]);
        lemma_cmp_chars_eq(a.drop_first(), b.drop_first());
        if a.drop_first() == b.drop_first() {
            assert forall|k: int| 0 <= k < a.len() implies a[k] == b[k] by {
                if k > 0 {
                    assert(a[k] == a.drop_first()[k - 1]);
                    assert(b[k] == b.drop_first()[k - 1]);
                }
            }
            assert(a =~= b);
        }
    }
}

/// Two values compare as equal exactly when their images are equal.
pub proof fn lemma_cmp_values_eq(a: SpecValue, b: SpecValue)
    ensures
        (spec_cmp_values(a, b) == 0) <==> (a == b),
    decreases a,
{
    if spec_rank(a) == spec_rank(b) {
        match (a, b) {
            (SpecValue::String(s), SpecValue::String(t)) => {
                lemma_cmp_chars_eq(s, t);
            },
            (SpecValue::Function(s), SpecValue::Function(t)) => {
                lemma_cmp_chars_eq(s, t);
            },
            (SpecValue::Array(x), SpecValue::Array(y)) => {
                lemma_cmp_seq_eq(x, y);
            },
            _ => {},
        }
    }
}

/// Two value sequences compare as equal exactly when they are equal.
pub proof fn lemma_cmp_seq_eq(x: Seq<SpecValue>, y: Seq<SpecValue>)
    ensures
        (spec_cmp_seq(x, y) == 0) <==> (x == y),
    decreases x,
{
    if x.len() == 0 && y.len() == 0 {
        assert(x =~= y);
    }
    if x.len() != 0 && y.len() != 0 {
        lemma_cmp_values_eq(x[0], y[0]);
        if spec_cmp_values(x[0], y[0]) == 0 {
            lemma_cmp_seq_eq(x.drop_first(), y.drop_first());
            if x.drop_first() == y.drop_first() && x[0] == y[0] {
                assert forall|k: int| 0 <= k < x.len() implies x[k] == y[k] by {
                    if k > 0 {
                        assert(x[k] == x.drop_first()[k - 1]);
                        assert(y[k] == y.drop_first()[k - 1]);
                    }
                }
                assert(x =~= y);
            }
            if x == y {
                assert(x.drop_first() =~= y.drop_first());
            }
        } else {
            if x == y {
                assert(x[0] == y[0]);
            }
        }
    }
}

/// Three-way comparison of two character slices, as `spec_cmp_chars`.
pub fn cmp_str(a: &str, b: &str) -> (r: i8)
    ensures
        r as int == spec_cmp_chars(a@, b@),
{
    let a_len = a.unicode_len();
    let b_len = b.unicode_len();
    let mut i: usize = 0;
    proof {
        assert(a@.skip(0) =~= a@);
        assert(b@.skip(0) =~= b@);
    }
    loop
        invariant
            i <= a_len,
            i <= b_len,
            a_len == a@.len(),
            b_len == b@.len(),
            spec_cmp_chars(a@, b@) == spec_cmp_chars(a@.skip(i as int), b@.skip(i as int)),
        decreases a_len - i,
    {
        if i == a_len && i == b_len {
            return 0;
        }
        if i == a_len {
            return -1;
        }
        if i == b_len {
            return 1;
        }
        let ca = a.get_char(i) as u32;
        let cb = b.get_char(i) as u32;
        if ca < cb {
            return -1;
        }
        if cb < ca {
            return 1;
        }
        proof {
            assert(a@.skip(i as int).drop_first() =~= a@.skip(i + 1));
            assert(b@.skip(i as int).drop_first() =~= b@.skip(i + 1));
        }
        i = i + 1;
    }
}

/// Equality of two character slices' contents.
pub fn str_eq(a: &str, b: &str) -> (r: bool)
    ensures
        r == (a@ == b@),
{
    let c = cmp_str(a, b);
    proof {
        lemma_cmp_chars_eq(a@, b@);
    }
    c == 0
}

/// Three-way comparison of two element vectors, as `spec_cmp_seq` on their
/// images.
pub fn cmp_value_vecs(x: &Vec<Value>, y: &Vec<Value>) -> (r: i8)
    ensures
        r as int == spec_cmp_seq(spec_value_views(x@), spec_value_views(y@)),
    decreases x,
{
    let ghost xs = spec_value_views(x@);
    let ghost ys = spec_value_views(y@);
    proof {
        lemma_value_views_len(x@);
        lemma_value_views_len(y@);
        assert(xs.skip(0) =~= xs);
        assert(ys.skip(0) =~= ys);
    }
    let mut i: usize = 0;
    loop
        invariant
            i <= x.len(),
            i <= y.len(),
            xs == spec_value_views(x@),
            ys == spec_value_views(y@),
            xs.len() == x@.len(),
            ys.len() == y@.len(),
            spec_cmp_seq(xs, ys) == spec_cmp_seq(xs.skip(i as int), ys.skip(i as int)),
        decreases x.len() - i,
    {
        if i == x.len() && i == y.len() {
            return 0;
        }
        if i == x.len() {
            return -1;
        }
        if i == y.len() {
            return 1;
        }
        proof {
            lemma_value_views_index(x@, i as int);
            lemma_value_views_index(y@, i as int);
        }
        let c = x[i].compare(&y[i]);
        if c != 0 {
            return c;
        }
        proof {
            assert(xs.skip(i as int).drop_first() =~= xs.skip(i + 1));
            assert(ys.skip(i as int).drop_first() =~= ys.skip(i + 1));
        }
        i = i + 1;
    }
}

impl Value {
    /// Three-way comparison in the total order on values, as
    /// `spec_cmp_values`: negative, zero or positive as `self` sorts before,
    /// equal to or after `other`.
    pub fn compare(&self, other: &Value) -> (r: i8)
        ensures
            r as int == spec_cmp_values(self@, other@),
        decreases self,
    {
        let ra = self.rank();
        let rb = other.rank();
        if ra != rb {
            return if ra < rb {
                -1
            } else {
                1
            };
        }
        match (self, other) {
            (Value::Int(i), Value::Int(j)) => if *i < *j {
                -1
            } else if *j < *i {
                1
            } else {
                0
            },
            (Value::String(s), Value::String(t)) => cmp_str(s.as_str(), t.as_str()),
            (Value::Char(c), Value::Char(d)) => {
                let cc = *c as u32;
                let dd = *d as u32;
                if cc < dd {
                    -1
                } else if dd < cc {
                    1
                } else {
                    0
                }
            },
            (Value::Array(x), Value::Array(y)) => cmp_value_vecs(x, y),
            (Value::Bool(p), Value::Bool(q)) => if *p == *q {
                0
            } else if !*p {
                -1
            } else {
                1
            },
            (Value::Function(s), Value::Function(t)) => cmp_str(s.as_str(), t.as_str()),
            _ => 0,
        }
    }

    /// Structural equality of images.
    pub fn equals(&self, other: &Value) -> (r: bool)
        ensures
            r == (self@ == other@),
    {
        let c = self.compare(other);
        proof {
            lemma_cmp_values_eq(self@, other@);
        }
        c == 0
    }

    /// The variant's rank in the total order on values.
    pub fn rank(&self) -> (r: u8)
        ensures
            r as int == spec_rank(self@),
    {
        match self {
            Value::Int(_) => 0,
            Value::String(_) => 1,
            Value::Char(_) => 2,
            Value::Array(_) => 3,
            Value::Bool(_) => 4,
            Value::Function(_) => 5,
            Value::Unit => 6,
            Value::Unknown => 7,
        }
    }

    /// The name of the value's variant, for diagnostics.
    pub fn kind_name(&self) -> (r: &'static str)
        ensures
            r@ == spec_kind_name(self@),
    {
        match self {
            Value::Int(_) => "Int",
            Value::String(_) => "String",
            Value::Char(_) => "Char",
            Value::Array(_) => "Array",
            Value::Bool(_) => "Bool",
            Value::Function(_) => "Function",
            Value::Unit => "Unit",
            Value::Unknown => "Unknown",
        }
    }
}

/// The name of a value's variant, for diagnostics.
pub open spec fn spec_kind_name(v: SpecValue) -> Seq<char> {
    match v {
        SpecValue::Int(_) => "Int"@,
        SpecValue::String(_) => "String"@,
        SpecValue::Char(_) => "Char"@,
        SpecValue::Array(_) => "Array"@,
        SpecValue::Bool(_) => "Bool"@,
        SpecValue::Function(_) => "Function"@,
        SpecValue::Unit => "Unit"@,
        SpecValue::Unknown => "Unknown"@,
    }
}

impl Clone for Value {
    /// A deep copy with the same image.
    fn clone(&self) -> (r: Self)
        ensures
            r@ == self@,
        decreases self,
    {
        match self {
            Value::Int(i) => Value::Int(*i),
            Value::String(s) => Value::String(s.clone()),
            Value::Char(c) => Value::Char(*c),
            Value::Array(items) => Value::Array(clone_values(items)),
            Value::Bool(b) => Value::Bool(*b),
            Value::Function(name) => Value::Function(name.clone()),
            Value::Unit => Value::Unit,
            Value::Unknown => Value::Unknown,
        }
    }
}

} // verus!
