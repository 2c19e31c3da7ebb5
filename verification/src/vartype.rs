//! The type strings of the schema, such as `float32`, `CHandle< CBaseEntity >`,
//! `CUtlVector< Vector >`, `CBodyComponent*` and `float32[3]`.

use vstd::prelude::*;
use vstd::string::StringSliceAdditionalSpecFns;

verus! {

/// The most digits that the length of a fixed array may have.
pub const MAX_LENGTH_DIGITS: usize = 9;

/// Why a type string could not be taken apart.
#[derive(Debug, Clone, Copy, PartialEq, Eq, Structural)]
pub enum Error {
    /// The string is empty, a bracket is not closed, or the length of an array is not a
    /// number of at most nine digits.
    MalformedVarType,
}

/// What a type string says besides a name.
#[derive(Debug, Clone, Copy, PartialEq, Eq, Structural)]
pub enum VarType {
    /// A value of the named type. Of a generic type the name is the one in front of the
    /// angle bracket.
    Scalar,
    /// A pointer to a structure of the named type.
    Pointer,
    /// An array of `length` values of the named type.
    FixedArray { length: usize },
    /// A vector of values of the named type.
    DynamicArray,
}

/// A type string, taken apart.
#[derive(Debug, Clone, PartialEq, Eq)]
pub struct ParsedVarType {
    pub kind: VarType,
    pub name: Vec<u8>,
}

/// The position of the first `c` in `s` at or after `from`, or the length of `s` if there
/// is none.
pub open spec fn index_of(s: Seq<u8>, c: u8, from: int) -> int
    decreases s.len() - from,
{
    if from >= s.len() {
        s.len() as int
    } else if s[from] == c {
        from
    } else {
        index_of(s, c, from + 1)
    }
}

/// The position of the first byte of `s` at or after `from` that is no space, or the
/// length of `s` if there is none.
pub open spec fn after_spaces(s: Seq<u8>, from: int) -> int
    decreases s.len() - from,
{
    if from >= s.len() {
        s.len() as int
    } else if s[from] != 32 {
        from
    } else {
        after_spaces(s, from + 1)
    }
}

/// The position behind the last byte of the first `upto` bytes of `s` that is no space, or
/// zero if there is none.
pub open spec fn before_spaces(s: Seq<u8>, upto: int) -> int
    decreases upto,
{
    if upto <= 0 {
        0
    } else if s[upto - 1] != 32 {
        upto
    } else {
        before_spaces(s, upto - 1)
    }
}

/// The bytes of `s` from `from` up to `upto` without the spaces in front and behind.
pub open spec fn trimmed(s: Seq<u8>, from: int, upto: int) -> Seq<u8> {
    let part = s.subrange(from, upto);
    let a = after_spaces(part, 0);
    let b = before_spaces(part, part.len() as int);
    if a < b {
        part.subrange(a, b)
    } else {
        Seq::empty()
    }
}

/// Whether `s` holds digits only.
pub open spec fn all_digits(s: Seq<u8>) -> bool {
    forall|i: int| 0 <= i < s.len() ==> 48 <= #[trigger] s[i] <= 57
}

/// The number that the digits `s` spell.
pub open spec fn decimal(s: Seq<u8>) -> nat
    decreases s.len(),
{
    if s.len() == 0 {
        0
    } else {
        10 * decimal(s.drop_last()) + (s.last() - 48) as nat
    }
}

/// Whether `name` names a vector type.
pub open spec fn is_vector(name: Seq<u8>) -> bool {
    ||| name == "CUtlVector".spec_bytes()
    ||| name == "CNetworkUtlVectorBase".spec_bytes()
    ||| name == "CUtlVectorEmbeddedNetworkVar".spec_bytes()
}

/// What the type string `s` says, and the name that it says it of.
///
/// A string that ends in `]` is an array of the type in front of the first `[`, with the
/// length that the digits between the brackets spell. One that ends in `*` is a pointer to
/// the type in front. One that ends in `>` is a generic type; a vector type is a vector of
/// the type between the angle brackets, and of any other the name in front of the first
/// `<` is kept. Any other string is the name of a type. Names lose the spaces around them.
pub open spec fn parsed(s: Seq<u8>) -> Result<(VarType, Seq<u8>), Error> {
    let n = s.len() as int;
    if n == 0 {
        Err(Error::MalformedVarType)
    } else if s[n - 1] == 93 {
        let open = index_of(s, 91, 0);
        let digits = s.subrange(open + 1, n - 1);
        if open < n - 2 && digits.len() <= MAX_LENGTH_DIGITS && all_digits(digits) {
            Ok((VarType::FixedArray { length: decimal(digits) as usize }, trimmed(s, 0, open)))
        } else {
            Err(Error::MalformedVarType)
        }
    } else if s[n - 1] == 42 {
        Ok((VarType::Pointer, trimmed(s, 0, n - 1)))
    } else if s[n - 1] == 62 {
        let open = index_of(s, 60, 0);
        if open >= n - 1 {
            Err(Error::MalformedVarType)
        } else if is_vector(trimmed(s, 0, open)) {
            Ok((VarType::DynamicArray, trimmed(s, open + 1, n - 1)))
        } else {
            Ok((VarType::Scalar, trimmed(s, 0, open)))
        }
    } else {
        Ok((VarType::Scalar, trimmed(s, 0, n)))
    }
}

/// Whether two byte strings are the same.
pub fn same_bytes(a: &[u8], b: &[u8]) -> (r: bool)
    ensures
        r == (a@ == b@),
{
    if a.len() != b.len() {
        return false;
    }
    let mut i: usize = 0;
    while i < a.len()
        invariant
            i <= a@.len() == b@.len(),
            a@.take(i as int) == b@.take(i as int),
        decreases a@.len() - i,
    {
        if a[i] != b[i] {
            return false;
        }
        assert(a@.take(i + 1) =~= a@.take(i as int).push(a@[i as int]));
        assert(b@.take(i + 1) =~= b@.take(i as int).push(b@[i as int]));
        i = i + 1;
    }
    assert(a@.take(a@.len() as int) =~= a@);
    assert(b@.take(b@.len() as int) =~= b@);
    true
}

/// Finds the first `c` in `s`.
fn find(s: &[u8], c: u8) -> (r: usize)
    ensures
        r == index_of(s@, c, 0),
        r <= s@.len(),
{
    let mut i: usize = 0;
    while i < s.len()
        invariant
            i <= s@.len(),
            index_of(s@, c, 0) == index_of(s@, c, i as int),
        decreases s@.len() - i,
    {
        if s[i] == c {
            return i;
        }
        i = i + 1;
    }
    i
}

/// Copies the bytes of `s` from `from` up to `upto` without the spaces around them.
fn trim(s: &[u8], from: usize, upto: usize) -> (r: Vec<u8>)
    requires
        from <= upto <= s@.len(),
    ensures
        r@ == trimmed(s@, from as int, upto as int),
{
    let ghost part = s@.subrange(from as int, upto as int);
    let mut a: usize = from;
    while a < upto && s[a] == 32
        invariant
            from <= a <= upto <= s@.len(),
            part == s@.subrange(from as int, upto as int),
            after_spaces(part, 0) == after_spaces(part, a - from),
        decreases upto - a,
    {
        a = a + 1;
    }
    let mut b: usize = upto;
    while b > from && s[b - 1] == 32
        invariant
            from <= b <= upto <= s@.len(),
            part == s@.subrange(from as int, upto as int),
            before_spaces(part, part.len() as int) == before_spaces(part, b - from),
        decreases b,
    {
        b = b - 1;
    }
    let mut out: Vec<u8> = Vec::new();
    if a < b {
        let mut i: usize = a;
        while i < b
            invariant
                from <= a <= i <= b <= upto <= s@.len(),
                out@ == s@.subrange(a as int, i as int),
            decreases b - i,
        {
            out.push(s[i]);
            assert(s@.subrange(a as int, i + 1) =~= s@.subrange(a as int, i as int).push(s@[i as int]));
            i = i + 1;
        }
        assert(part.subrange(a - from, b - from) =~= s@.subrange(a as int, b as int));
    } else {
        assert(out@ =~= Seq::<u8>::empty());
    }
    out
}

/// Reads the number that the bytes of `s` from `from` up to `upto` spell, if they are at
/// most nine digits.
fn number(s: &[u8], from: usize, upto: usize) -> (r: Option<usize>)
    requires
        from <= upto <= s@.len(),
    ensures
        r is Some <==> upto - from <= MAX_LENGTH_DIGITS && all_digits(
            s@.subrange(from as int, upto as int),
        ),
        r matches Some(v) ==> v == decimal(s@.subrange(from as int, upto as int)),
{
    let ghost digits = s@.subrange(from as int, upto as int);
    if upto - from > MAX_LENGTH_DIGITS {
        return None;
    }
    let mut value: usize = 0;
    let mut bound: usize = 1;
    let mut i: usize = from;
    assert(digits.take(0) =~= Seq::<u8>::empty());
    while i < upto
        invariant
            from <= i <= upto <= s@.len(),
            upto - from <= MAX_LENGTH_DIGITS,
            digits == s@.subrange(from as int, upto as int),
            all_digits(digits.take(i - from)),
            value == decimal(digits.take(i - from)),
            value < bound,
            bound == exp10((i - from) as nat),
        decreases upto - i,
    {
        let d = s[i];
        if d < 48 || d > 57 {
            assert(digits[i - from] == d);
            return None;
        }
        proof {
            assert(digits.take(i + 1 - from).drop_last() =~= digits.take(i - from));
            assert(digits.take(i + 1 - from).last() == d);
            lemma_exp10_bound((i - from + 1) as nat);
            assert(exp10((i - from + 1) as nat) == 10 * exp10((i - from) as nat));
        }
        value = 10 * value + (d - 48) as usize;
        bound = 10 * bound;
        i = i + 1;
    }
    assert(digits.take(upto - from) =~= digits);
    Some(value)
}

/// Ten to the `k`.
pub open spec fn exp10(k: nat) -> nat
    decreases k,
{
    if k == 0 {
        1
    } else {
        10 * exp10((k - 1) as nat)
    }
}

proof fn lemma_exp10_bound(k: nat)
    requires
        k <= MAX_LENGTH_DIGITS,
    ensures
        exp10(k) <= 1_000_000_000,
    decreases MAX_LENGTH_DIGITS - k,
{
    reveal_with_fuel(exp10, 11);
}

impl ParsedVarType {
    /// Takes a type string apart.
    pub fn parse(s: &[u8]) -> (r: Result<ParsedVarType, Error>)
        ensures
            match r {
                Ok(t) => parsed(s@) == Ok::<(VarType, Seq<u8>), Error>((t.kind, t.name@)),
                Err(e) => parsed(s@) == Err::<(VarType, Seq<u8>), Error>(e),
            },
    {
        let n = s.len();
        if n == 0 {
            return Err(Error::MalformedVarType);
        }
        let last = s[n - 1];
        if last == 93 {
            let open = find(s, 91);
            if n < 3 || open >= n - 2 {
                return Err(Error::MalformedVarType);
            }
            match number(s, open + 1, n - 1) {
                Some(length) => Ok(
                    ParsedVarType { kind: VarType::FixedArray { length }, name: trim(s, 0, open) },
                ),
                None => Err(Error::MalformedVarType),
            }
        } else if last == 42 {
            Ok(ParsedVarType { kind: VarType::Pointer, name: trim(s, 0, n - 1) })
        } else if last == 62 {
            let open = find(s, 60);
            if open >= n - 1 {
                return Err(Error::MalformedVarType);
            }
            let outer = trim(s, 0, open);
            if same_bytes(outer.as_slice(), "CUtlVector".as_bytes()) || same_bytes(
                outer.as_slice(),
                "CNetworkUtlVectorBase".as_bytes(),
            ) || same_bytes(outer.as_slice(), "CUtlVectorEmbeddedNetworkVar".as_bytes()) {
                Ok(ParsedVarType { kind: VarType::DynamicArray, name: trim(s, open + 1, n - 1) })
            } else {
                Ok(ParsedVarType { kind: VarType::Scalar, name: outer })
            }
        } else {
            Ok(ParsedVarType { kind: VarType::Scalar, name: trim(s, 0, n) })
        }
    }
}

} // verus!
