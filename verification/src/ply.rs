//! The mesh file reader: a binary PLY parser over a byte buffer.  The
//! header grammar is parsed token by token; the payload is read scalar
//! by scalar; the result is a validated raw mesh with derived normals.

use vstd::prelude::*;
use vstd::string::StringSliceAdditionalSpecFns;

verus! {

/// Whether a byte is ASCII whitespace, as a whitespace split sees it.
pub open spec fn is_ws(b: u8) -> bool {
    b == 0x20 || (0x09 <= b && b <= 0x0D)
}

/// The view of a vector of tokens as a sequence of byte sequences.
pub open spec fn tokens_view(ts: Seq<Vec<u8>>) -> Seq<Seq<u8>> {
    Seq::new(ts.len(), |i: int| ts[i]@)
}

/// The split state after the first `k` bytes: the finished tokens and
/// the token being gathered.
pub open spec fn tok_upto(s: Seq<u8>, k: int) -> (Seq<Seq<u8>>, Seq<u8>)
    decreases k,
{
    if k <= 0 {
        (Seq::empty(), Seq::empty())
    } else {
        let (ts, cur) = tok_upto(s, k - 1);
        let b = s[k - 1];
        if is_ws(b) {
            if cur.len() > 0 {
                (ts.push(cur), Seq::empty())
            } else {
                (ts, cur)
            }
        } else {
            (ts, cur.push(b))
        }
    }
}

/// A line split at whitespace into its nonempty tokens.
pub open spec fn tokenize_spec(s: Seq<u8>) -> Seq<Seq<u8>> {
    let (ts, cur) = tok_upto(s, s.len() as int);
    if cur.len() > 0 {
        ts.push(cur)
    } else {
        ts
    }
}

/// Splits a header line at whitespace.
pub fn tokenize(s: &Vec<u8>) -> (r: Vec<Vec<u8>>)
    ensures
        tokens_view(r@) == tokenize_spec(s@),
{
    let mut ts: Vec<Vec<u8>> = Vec::new();
    let mut cur: Vec<u8> = Vec::new();
    let mut k: usize = 0;
    while k < s.len()
        invariant
            k <= s@.len(),
            (tokens_view(ts@), cur@) == tok_upto(s@, k as int),
        decreases s@.len() - k,
    {
        let b = s[k];
        if b == 0x20 || (0x09 <= b && b <= 0x0D) {
            if cur.len() > 0 {
                let ghost before = tokens_view(ts@);
                ts.push(cur);
                assert(tokens_view(ts@) =~= before.push(cur@));
                cur = Vec::new();
            }
        } else {
            cur.push(b);
        }
        k += 1;
    }
    if cur.len() > 0 {
        let ghost before = tokens_view(ts@);
        ts.push(cur);
        assert(tokens_view(ts@) =~= before.push(cur@));
    }
    ts
}

/// Whether a token equals a keyword, byte for byte.
pub fn token_is(t: &Vec<u8>, w: &str) -> (r: bool)
    ensures
        r == (t@ == w.spec_bytes()),
{
    let wb = w.as_bytes();
    if t.len() != wb.len() {
        return false;
    }
    let n = wb.len();
    let mut k: usize = 0;
    while k < n
        invariant
            k <= n,
            n == wb@.len(),
            wb@ == w.spec_bytes(),
            t@.len() == n,
            forall|i: int| 0 <= i < k ==> t@[i] == wb@[i],
        decreases n - k,
    {
        if t[k] != wb[k] {
            return false;
        }
        k += 1;
    }
    assert(t@ =~= wb@);
    true
}

/// Copies a token, byte for byte.
pub fn copy_bytes(t: &Vec<u8>) -> (r: Vec<u8>)
    ensures
        r@ == t@,
{
    let mut r: Vec<u8> = Vec::new();
    let mut k: usize = 0;
    while k < t.len()
        invariant
            k <= t@.len(),
            r@ == t@.take(k as int),
        decreases t@.len() - k,
    {
        r.push(t[k]);
        assert(r@ =~= t@.take(k as int + 1));
        k += 1;
    }
    assert(t@.take(t@.len() as int) =~= t@);
    r
}

/// The value of the first `k` decimal digits.
pub open spec fn digits_val(s: Seq<u8>, k: int) -> int
    decreases k,
{
    if k <= 0 {
        0
    } else {
        digits_val(s, k - 1) * 10 + (s[k - 1] - 0x30)
    }
}

pub open spec fn all_digits(s: Seq<u8>) -> bool {
    forall|k: int| 0 <= k < s.len() ==> 0x30 <= #[trigger] s[k] <= 0x39
}

/// A leading plus sign, which a decimal parse accepts, stripped.
pub open spec fn strip_plus(s: Seq<u8>) -> Seq<u8> {
    if s.len() > 0 && s[0] == 0x2B {
        s.drop_first()
    } else {
        s
    }
}

/// What a decimal parse of a token yields: its value, when the token is
/// one or more digits after an optional plus sign and the value fits.
pub open spec fn parse_usize_spec(s: Seq<u8>) -> Option<usize> {
    let t = strip_plus(s);
    if t.len() > 0 && all_digits(t) && digits_val(t, t.len() as int) <= usize::MAX {
        Some(digits_val(t, t.len() as int) as usize)
    } else {
        None
    }
}

/// The digit value only grows with more digits.
pub proof fn lemma_digits_val_mono(s: Seq<u8>, k: int, m: int)
    requires
        all_digits(s),
        0 <= k <= m <= s.len(),
    ensures
        0 <= digits_val(s, k) <= digits_val(s, m),
    decreases m,
{
    if m > k {
        lemma_digits_val_mono(s, k, m - 1);
    } else if k > 0 {
        lemma_digits_val_mono(s, k - 1, k - 1);
    }
}

/// Parses a decimal count.
pub fn parse_usize_token(t: &Vec<u8>) -> (r: Option<usize>)
    ensures
        r == parse_usize_spec(t@),
{
    let mut k: usize = 0;
    if t.len() > 0 && t[0] == 0x2B {
        k = 1;
    }
    let start = k;
    let ghost tt = strip_plus(t@);
    assert(tt.len() == t@.len() - start);
    assert(forall|i: int| 0 <= i < tt.len() ==> tt[i] == t@[i + start]);
    if k == t.len() {
        return None;
    }
    let mut val: usize = 0;
    while k < t.len()
        invariant
            start <= k <= t@.len(),
            start <= 1,
            tt == strip_plus(t@),
            tt.len() == t@.len() - start,
            forall|i: int| 0 <= i < tt.len() ==> tt[i] == t@[i + start],
            forall|i: int| 0 <= i < k - start ==> 0x30 <= #[trigger] tt[i] <= 0x39,
            val == digits_val(tt, k - start),
        decreases t@.len() - k,
    {
        let b = t[k];
        if b < 0x30 || b > 0x39 {
            assert(!all_digits(tt)) by {
                assert(tt[k - start] == b);
            }
            return None;
        }
        let d = (b - 0x30) as usize;
        let v10 = match val.checked_mul(10) {
            Some(v) => v,
            None => {
                proof {
                    if all_digits(tt) {
                        lemma_digits_val_mono(tt, k - start + 1, tt.len() as int);
                        assert(digits_val(tt, k - start + 1) == val * 10 + (tt[k - start] - 0x30));
                    }
                }
                return None;
            },
        };
        let v = match v10.checked_add(d) {
            Some(v) => v,
            None => {
                proof {
                    if all_digits(tt) {
                        lemma_digits_val_mono(tt, k - start + 1, tt.len() as int);
                        assert(digits_val(tt, k - start + 1) == val * 10 + (tt[k - start] - 0x30));
                    }
                }
                return None;
            },
        };
        val = v;
        k += 1;
    }
    proof {
        assert(all_digits(tt));
    }
    Some(val)
}

/// How the file encodes its payload.
#[derive(Clone, Copy, Debug, PartialEq, Eq, Structural)]
pub enum Format {
    Ascii,
    BigEndian,
    LittleEndian,
}

/// The scalar types a property can carry.
#[derive(Clone, Copy, Debug, PartialEq, Eq, Structural)]
pub enum ScalarType {
    I8,
    U8,
    I16,
    U16,
    I32,
    U32,
    F32,
    F64,
}

/// One scalar read from the payload.  Floating-point values are carried
/// by bit pattern.
#[derive(Clone, Copy, Debug, PartialEq, Eq, Structural)]
pub enum DynamicScalar {
    I8(i8),
    U8(u8),
    I16(i16),
    U16(u16),
    I32(i32),
    U32(u32),
    F32(u32),
    F64(u64),
}

/// A property is a scalar or a length-prefixed list.
#[derive(Clone, Copy, Debug, PartialEq, Eq, Structural)]
pub enum PropertyType {
    Scalar(ScalarType),
    List(ScalarType, ScalarType),
}

/// A named property of an element.
#[derive(Debug, Clone)]
pub struct Property {
    pub name: Vec<u8>,
    pub ty: PropertyType,
}

/// A named element with an instance count and its properties.
#[derive(Debug)]
pub struct Element {
    pub name: Vec<u8>,
    pub count: usize,
    pub properties: Vec<Property>,
}

/// Everything that can be wrong with a mesh file.
#[derive(Clone, Copy, Debug, PartialEq, Eq, Structural)]
pub enum PlyError {
    InvalidMagic,
    MissingFormatLine,
    UnknownFormat,
    MissingElementName,
    MissingElementCount,
    BadElementCount,
    UnknownScalarType,
    MissingElementType,
    MissingPropertyName,
    UnexpectedProperty,
    AsciiUnsupported,
    UnexpectedEnd,
    BadListLength,
    BadIndexValue,
    BadFaceArity,
    MissingFaceIndices,
    MissingVertexComponent,
    IndexOutOfRange,
}

/// The integer value of a scalar, with the wrap-around of an integer
/// cast; floating-point scalars carry no index.
pub open spec fn as_usize_spec(s: DynamicScalar) -> Option<usize> {
    match s {
        DynamicScalar::I8(v) => Some(v as usize),
        DynamicScalar::U8(v) => Some(v as usize),
        DynamicScalar::I16(v) => Some(v as usize),
        DynamicScalar::U16(v) => Some(v as usize),
        DynamicScalar::I32(v) => Some(v as usize),
        DynamicScalar::U32(v) => Some(v as usize),
        DynamicScalar::F32(_) => None,
        DynamicScalar::F64(_) => None,
    }
}

/// The single-precision bit pattern of a scalar; integer scalars carry
/// no coordinate.
pub open spec fn as_f32_spec(s: DynamicScalar) -> Option<u32> {
    match s {
        DynamicScalar::F32(v) => Some(v),
        DynamicScalar::F64(v) => Some(crate::fp::f32_of_f64(v)),
        _ => None,
    }
}

impl DynamicScalar {
    pub fn as_usize(&self) -> (r: Option<usize>)
        ensures
            r == as_usize_spec(*self),
    {
        match self {
            DynamicScalar::I8(v) => Some(#[verifier::truncate] (*v as usize)),
            DynamicScalar::U8(v) => Some(*v as usize),
            DynamicScalar::I16(v) => Some(#[verifier::truncate] (*v as usize)),
            DynamicScalar::U16(v) => Some(*v as usize),
            DynamicScalar::I32(v) => Some(#[verifier::truncate] (*v as usize)),
            DynamicScalar::U32(v) => Some(*v as usize),
            DynamicScalar::F32(_) => None,
            DynamicScalar::F64(_) => None,
        }
    }

    /// The single-precision bit pattern of a floating-point scalar,
    /// demoting doubles.
    pub fn as_f32_bits(&self) -> (r: Option<u32>)
        ensures
            r == as_f32_spec(*self),
    {
        match self {
            DynamicScalar::F32(v) => Some(*v),
            DynamicScalar::F64(v) => Some(crate::fp::f32_of_f64_w(*v)),
            _ => None,
        }
    }
}

/// The scalar type a header token names.
pub open spec fn scalar_type_of(s: Seq<u8>) -> Option<ScalarType> {
    if s == "int8".spec_bytes() || s == "char".spec_bytes() {
        Some(ScalarType::I8)
    } else if s == "uint8".spec_bytes() || s == "uchar".spec_bytes() {
        Some(ScalarType::U8)
    } else if s == "int16".spec_bytes() || s == "short".spec_bytes() {
        Some(ScalarType::I16)
    } else if s == "uint16".spec_bytes() || s == "ushort".spec_bytes() {
        Some(ScalarType::U16)
    } else if s == "int32".spec_bytes() || s == "int".spec_bytes() {
        Some(ScalarType::I32)
    } else if s == "uint32".spec_bytes() || s == "uint".spec_bytes() {
        Some(ScalarType::U32)
    } else if s == "float32".spec_bytes() || s == "float".spec_bytes() {
        Some(ScalarType::F32)
    } else if s == "float64".spec_bytes() || s == "double".spec_bytes() {
        Some(ScalarType::F64)
    } else {
        None
    }
}

/// Parses one scalar type name.
pub fn parse_scalar_type(token: &Vec<u8>) -> (r: Result<ScalarType, PlyError>)
    ensures
        match scalar_type_of(token@) {
            Some(t) => r == Ok::<ScalarType, PlyError>(t),
            None => r == Err::<ScalarType, PlyError>(PlyError::UnknownScalarType),
        },
{
    if token_is(token, "int8") || token_is(token, "char") {
        Ok(ScalarType::I8)
    } else if token_is(token, "uint8") || token_is(token, "uchar") {
        Ok(ScalarType::U8)
    } else if token_is(token, "int16") || token_is(token, "short") {
        Ok(ScalarType::I16)
    } else if token_is(token, "uint16") || token_is(token, "ushort") {
        Ok(ScalarType::U16)
    } else if token_is(token, "int32") || token_is(token, "int") {
        Ok(ScalarType::I32)
    } else if token_is(token, "uint32") || token_is(token, "uint") {
        Ok(ScalarType::U32)
    } else if token_is(token, "float32") || token_is(token, "float") {
        Ok(ScalarType::F32)
    } else if token_is(token, "float64") || token_is(token, "double") {
        Ok(ScalarType::F64)
    } else {
        Err(PlyError::UnknownScalarType)
    }
}

/// What parsing an element line's remaining tokens yields: the element
/// name and its decimal instance count.
pub open spec fn element_line_of(tokens: Seq<Seq<u8>>, pos: int) -> Result<(Seq<u8>, usize), PlyError> {
    if pos >= tokens.len() {
        Err(PlyError::MissingElementName)
    } else if pos + 1 >= tokens.len() {
        Err(PlyError::MissingElementCount)
    } else {
        match parse_usize_spec(tokens[pos + 1]) {
            Some(v) => Ok((tokens[pos], v)),
            None => Err(PlyError::BadElementCount),
        }
    }
}

/// Parses an element declaration's name and count from the tokens after
/// the keyword.
pub fn parse_element_line(tokens: &Vec<Vec<u8>>, pos: usize) -> (r: Result<
    (Vec<u8>, usize),
    PlyError,
>)
    ensures
        match element_line_of(tokens_view(tokens@), pos as int) {
            Ok((name, count)) => match r {
                Ok(p) => p.0@ == name && p.1 == count,
                Err(_) => false,
            },
            Err(e) => r == Err::<(Vec<u8>, usize), PlyError>(e),
        },
{
    if pos >= tokens.len() {
        return Err(PlyError::MissingElementName);
    }
    if pos + 1 >= tokens.len() {
        return Err(PlyError::MissingElementCount);
    }
    let name = copy_bytes(&tokens[pos]);
    match parse_usize_token(&tokens[pos + 1]) {
        Some(v) => Ok((name, v)),
        None => Err(PlyError::BadElementCount),
    }
}

/// What parsing a property's type from the remaining tokens yields: the
/// type and the position after it.
pub open spec fn property_type_of(tokens: Seq<Seq<u8>>, pos: int) -> Result<
    (PropertyType, int),
    PlyError,
> {
    if pos >= tokens.len() {
        Err(PlyError::MissingElementType)
    } else if tokens[pos] == "list".spec_bytes() {
        if pos + 1 >= tokens.len() {
            Err(PlyError::UnknownScalarType)
        } else {
            match scalar_type_of(tokens[pos + 1]) {
                None => Err(PlyError::UnknownScalarType),
                Some(lt) => {
                    if pos + 2 >= tokens.len() {
                        Err(PlyError::UnknownScalarType)
                    } else {
                        match scalar_type_of(tokens[pos + 2]) {
                            None => Err(PlyError::UnknownScalarType),
                            Some(t) => Ok((PropertyType::List(lt, t), pos + 3)),
                        }
                    }
                },
            }
        }
    } else {
        match scalar_type_of(tokens[pos]) {
            None => Err(PlyError::UnknownScalarType),
            Some(t) => Ok((PropertyType::Scalar(t), pos + 1)),
        }
    }
}

/// Parses a property's type: either a scalar type name, or `list`
/// followed by the length type and the item type.
pub fn parse_property_type(tokens: &Vec<Vec<u8>>, pos: usize) -> (r: Result<
    (PropertyType, usize),
    PlyError,
>)
    ensures
        match property_type_of(tokens_view(tokens@), pos as int) {
            Ok((ty, p)) => match r {
                Ok(q) => q.0 == ty && q.1 == p,
                Err(_) => false,
            },
            Err(e) => r == Err::<(PropertyType, usize), PlyError>(e),
        },
{
    if pos >= tokens.len() {
        return Err(PlyError::MissingElementType);
    }
    if token_is(&tokens[pos], "list") {
        if pos + 1 >= tokens.len() {
            return Err(PlyError::UnknownScalarType);
        }
        let lt = match parse_scalar_type(&tokens[pos + 1]) {
            Ok(t) => t,
            Err(e) => {
                return Err(e);
            },
        };
        if pos + 2 >= tokens.len() {
            return Err(PlyError::UnknownScalarType);
        }
        let t = match parse_scalar_type(&tokens[pos + 2]) {
            Ok(t) => t,
            Err(e) => {
                return Err(e);
            },
        };
        Ok((PropertyType::List(lt, t), pos + 3))
    } else {
        match parse_scalar_type(&tokens[pos]) {
            Ok(t) => Ok((PropertyType::Scalar(t), pos + 1)),
            Err(e) => Err(e),
        }
    }
}

/// What parsing a whole property declaration yields: its type, then its
/// name, and the position after both.
pub open spec fn property_of(tokens: Seq<Seq<u8>>, pos: int) -> Result<
    (PropertyType, Seq<u8>, int),
    PlyError,
> {
    match property_type_of(tokens, pos) {
        Err(e) => Err(e),
        Ok((ty, p)) => {
            if p >= tokens.len() {
                Err(PlyError::MissingPropertyName)
            } else {
                Ok((ty, tokens[p], p + 1))
            }
        },
    }
}

/// Parses a property declaration: its type followed by its name.
pub fn parse_property(tokens: &Vec<Vec<u8>>, pos: usize) -> (r: Result<
    (Property, usize),
    PlyError,
>)
    ensures
        match property_of(tokens_view(tokens@), pos as int) {
            Ok((ty, name, p)) => match r {
                Ok(q) => q.0.ty == ty && q.0.name@ == name && q.1 == p,
                Err(_) => false,
            },
            Err(e) => r == Err::<(Property, usize), PlyError>(e),
        },
{
    let (ty, p) = match parse_property_type(tokens, pos) {
        Ok(q) => q,
        Err(e) => {
            return Err(e);
        },
    };
    if p >= tokens.len() {
        return Err(PlyError::MissingPropertyName);
    }
    let name = copy_bytes(&tokens[p]);
    Ok((Property { name, ty }, p + 1))
}

/// One property read from the payload.
#[derive(Debug)]
pub enum DynamicProperty {
    Scalar(DynamicScalar),
    List(Vec<DynamicScalar>),
}

/// How many payload bytes a scalar occupies.
pub open spec fn scalar_size(t: ScalarType) -> int {
    match t {
        ScalarType::I8 => 1,
        ScalarType::U8 => 1,
        ScalarType::I16 => 2,
        ScalarType::U16 => 2,
        ScalarType::I32 => 4,
        ScalarType::U32 => 4,
        ScalarType::F32 => 4,
        ScalarType::F64 => 8,
    }
}

/// Two payload bytes as an integer, little-endian.
pub open spec fn le2(b: Seq<u8>, p: int) -> int {
    b[p] + b[p + 1] * 0x100
}

/// Two payload bytes as an integer, big-endian.
pub open spec fn be2(b: Seq<u8>, p: int) -> int {
    b[p + 1] + b[p] * 0x100
}

/// Four payload bytes as an integer, little-endian.
pub open spec fn le4(b: Seq<u8>, p: int) -> int {
    b[p] + b[p + 1] * 0x100 + b[p + 2] * 0x1_0000 + b[p + 3] * 0x100_0000
}

/// Four payload bytes as an integer, big-endian.
pub open spec fn be4(b: Seq<u8>, p: int) -> int {
    b[p + 3] + b[p + 2] * 0x100 + b[p + 1] * 0x1_0000 + b[p] * 0x100_0000
}

/// Eight payload bytes as an integer, little-endian.
pub open spec fn le8(b: Seq<u8>, p: int) -> int {
    le4(b, p) + le4(b, p + 4) * 0x1_0000_0000
}

/// Eight payload bytes as an integer, big-endian.
pub open spec fn be8(b: Seq<u8>, p: int) -> int {
    be4(b, p + 4) + be4(b, p) * 0x1_0000_0000
}

/// What reading one scalar at `pos` yields: the scalar and the position
/// after it, or the end of the buffer.
pub open spec fn read_scalar_spec(t: ScalarType, big: bool, b: Seq<u8>, pos: usize) -> Result<
    (DynamicScalar, usize),
    PlyError,
> {
    let size = scalar_size(t);
    if pos + size > b.len() {
        Err(PlyError::UnexpectedEnd)
    } else {
        let p = pos as int;
        let v = match t {
            ScalarType::I8 => DynamicScalar::I8(b[p] as i8),
            ScalarType::U8 => DynamicScalar::U8(b[p]),
            ScalarType::I16 => DynamicScalar::I16(
                ((if big {
                    be2(b, p)
                } else {
                    le2(b, p)
                }) as u16) as i16,
            ),
            ScalarType::U16 => DynamicScalar::U16(
                (if big {
                    be2(b, p)
                } else {
                    le2(b, p)
                }) as u16,
            ),
            ScalarType::I32 => DynamicScalar::I32(
                ((if big {
                    be4(b, p)
                } else {
                    le4(b, p)
                }) as u32) as i32,
            ),
            ScalarType::U32 => DynamicScalar::U32(
                (if big {
                    be4(b, p)
                } else {
                    le4(b, p)
                }) as u32,
            ),
            ScalarType::F32 => DynamicScalar::F32(
                (if big {
                    be4(b, p)
                } else {
                    le4(b, p)
                }) as u32,
            ),
            ScalarType::F64 => DynamicScalar::F64(
                (if big {
                    be8(b, p)
                } else {
                    le8(b, p)
                }) as u64,
            ),
        };
        Ok((v, (pos + size) as usize))
    }
}

/// Reads one scalar of the payload.
pub fn read_scalar(t: ScalarType, big: bool, b: &Vec<u8>, pos: usize) -> (r: Result<
    (DynamicScalar, usize),
    PlyError,
>)
    requires
        pos <= b@.len(),
    ensures
        r == read_scalar_spec(t, big, b@, pos),
        r is Ok ==> pos < (r->Ok_0).1 <= b@.len(),
{
    let n = b.len();
    match t {
        ScalarType::I8 => {
            if n - pos < 1 {
                return Err(PlyError::UnexpectedEnd);
            }
            Ok((DynamicScalar::I8(#[verifier::truncate] (b[pos] as i8)), pos + 1))
        },
        ScalarType::U8 => {
            if n - pos < 1 {
                return Err(PlyError::UnexpectedEnd);
            }
            Ok((DynamicScalar::U8(b[pos]), pos + 1))
        },
        ScalarType::I16 => {
            if n - pos < 2 {
                return Err(PlyError::UnexpectedEnd);
            }
            let (lo, hi) = if big {
                (b[pos + 1], b[pos])
            } else {
                (b[pos], b[pos + 1])
            };
            let u = lo as u16 + (hi as u16) * 0x100;
            Ok((DynamicScalar::I16(#[verifier::truncate] (u as i16)), pos + 2))
        },
        ScalarType::U16 => {
            if n - pos < 2 {
                return Err(PlyError::UnexpectedEnd);
            }
            let (lo, hi) = if big {
                (b[pos + 1], b[pos])
            } else {
                (b[pos], b[pos + 1])
            };
            Ok((DynamicScalar::U16(lo as u16 + (hi as u16) * 0x100), pos + 2))
        },
        ScalarType::I32 => {
            if n - pos < 4 {
                return Err(PlyError::UnexpectedEnd);
            }
            let u = assemble4(big, b[pos], b[pos + 1], b[pos + 2], b[pos + 3]);
            Ok((DynamicScalar::I32(#[verifier::truncate] (u as i32)), pos + 4))
        },
        ScalarType::U32 => {
            if n - pos < 4 {
                return Err(PlyError::UnexpectedEnd);
            }
            Ok((DynamicScalar::U32(assemble4(big, b[pos], b[pos + 1], b[pos + 2], b[pos + 3])), pos + 4))
        },
        ScalarType::F32 => {
            if n - pos < 4 {
                return Err(PlyError::UnexpectedEnd);
            }
            Ok((DynamicScalar::F32(assemble4(big, b[pos], b[pos + 1], b[pos + 2], b[pos + 3])), pos + 4))
        },
        ScalarType::F64 => {
            if n - pos < 8 {
                return Err(PlyError::UnexpectedEnd);
            }
            let lo4 = if big {
                assemble4(false, b[pos + 7], b[pos + 6], b[pos + 5], b[pos + 4])
            } else {
                assemble4(false, b[pos], b[pos + 1], b[pos + 2], b[pos + 3])
            };
            let hi4 = if big {
                assemble4(false, b[pos + 3], b[pos + 2], b[pos + 1], b[pos])
            } else {
                assemble4(false, b[pos + 4], b[pos + 5], b[pos + 6], b[pos + 7])
            };
            let u = lo4 as u64 + (hi4 as u64) * 0x1_0000_0000;
            Ok((DynamicScalar::F64(u), pos + 8))
        },
    }
}

/// Four bytes in payload order assembled into an integer.
pub fn assemble4(big: bool, b0: u8, b1: u8, b2: u8, b3: u8) -> (r: u32)
    ensures
        !big ==> r == b0 + b1 * 0x100 + b2 * 0x1_0000 + b3 * 0x100_0000,
        big ==> r == b3 + b2 * 0x100 + b1 * 0x1_0000 + b0 * 0x100_0000,
{
    let (c0, c1, c2, c3) = if big {
        (b3, b2, b1, b0)
    } else {
        (b0, b1, b2, b3)
    };
    c0 as u32 + (c1 as u32) * 0x100 + (c2 as u32) * 0x1_0000 + (c3 as u32) * 0x100_0000
}

/// A property value with its list contents as a sequence.
pub ghost enum DynPropModel {
    Scalar(DynamicScalar),
    List(Seq<DynamicScalar>),
}

pub open spec fn dyn_prop_model(d: DynamicProperty) -> DynPropModel {
    match d {
        DynamicProperty::Scalar(v) => DynPropModel::Scalar(v),
        DynamicProperty::List(l) => DynPropModel::List(l@),
    }
}

/// What reading `n` scalars in a row yields.
pub open spec fn read_list_spec(t: ScalarType, big: bool, b: Seq<u8>, pos: usize, n: int) -> Result<
    (Seq<DynamicScalar>, usize),
    PlyError,
>
    decreases n,
{
    if n <= 0 {
        Ok((Seq::empty(), pos))
    } else {
        match read_scalar_spec(t, big, b, pos) {
            Err(e) => Err(e),
            Ok((v, p2)) => match read_list_spec(t, big, b, p2, n - 1) {
                Err(e) => Err(e),
                Ok((vs, p3)) => Ok((seq![v] + vs, p3)),
            },
        }
    }
}

/// What reading one property yields: its scalar, or its length prefix
/// followed by that many scalars.  A list whose length is not an
/// integer is malformed.
pub open spec fn read_property_spec(ty: PropertyType, big: bool, b: Seq<u8>, pos: usize) -> Result<
    (DynPropModel, usize),
    PlyError,
> {
    match ty {
        PropertyType::Scalar(t) => match read_scalar_spec(t, big, b, pos) {
            Err(e) => Err(e),
            Ok((v, p)) => Ok((DynPropModel::Scalar(v), p)),
        },
        PropertyType::List(lt, t) => match read_scalar_spec(lt, big, b, pos) {
            Err(e) => Err(e),
            Ok((lv, p0)) => match as_usize_spec(lv) {
                None => Err(PlyError::BadListLength),
                Some(len) => match read_list_spec(t, big, b, p0, len as int) {
                    Err(e) => Err(e),
                    Ok((vs, p)) => Ok((DynPropModel::List(vs), p)),
                },
            },
        },
    }
}

/// Reads one property of one element instance: a scalar, or a list with
/// its length prefix.  A list whose length is not an integer is
/// malformed.
pub fn read_property(ty: &PropertyType, big: bool, b: &Vec<u8>, pos: usize) -> (r: Result<
    (DynamicProperty, usize),
    PlyError,
>)
    requires
        pos <= b@.len(),
    ensures
        (match (r, read_property_spec(*ty, big, b@, pos)) {
            (Ok((v, p)), Ok((sv, sp))) => dyn_prop_model(v) == sv && p == sp,
            (Err(e), Err(se)) => e == se,
            _ => false,
        }),
        r is Ok ==> pos <= (r->Ok_0).1 <= b@.len(),
{
    match ty {
        PropertyType::Scalar(t) => {
            let (v, p) = match read_scalar(*t, big, b, pos) {
                Ok(q) => q,
                Err(e) => {
                    return Err(e);
                },
            };
            Ok((DynamicProperty::Scalar(v), p))
        },
        PropertyType::List(lt, t) => {
            let (lv, p0) = match read_scalar(*lt, big, b, pos) {
                Ok(q) => q,
                Err(e) => {
                    return Err(e);
                },
            };
            let len = match lv.as_usize() {
                Some(v) => v,
                None => {
                    return Err(PlyError::BadListLength);
                },
            };
            let mut list: Vec<DynamicScalar> = Vec::new();
            let mut p = p0;
            let mut k: usize = 0;
            proof {
                assert(forall|vs: Seq<DynamicScalar>| Seq::<DynamicScalar>::empty() + vs =~= vs);
            }
            while k < len
                invariant
                    pos <= p <= b@.len(),
                    k <= len,
                    read_property_spec(*ty, big, b@, pos) == (match read_list_spec(
                        *t,
                        big,
                        b@,
                        p,
                        len - k,
                    ) {
                        Err(e) => Err::<(DynPropModel, usize), PlyError>(e),
                        Ok((vs, pp)) => Ok((DynPropModel::List(list@ + vs), pp)),
                    }),
                decreases len - k,
            {
                let (v, p2) = match read_scalar(*t, big, b, p) {
                    Ok(q) => q,
                    Err(e) => {
                        proof {
                            assert(read_list_spec(*t, big, b@, p, len - k) == Err::<
                                (Seq<DynamicScalar>, usize),
                                PlyError,
                            >(e));
                        }
                        return Err(e);
                    },
                };
                proof {
                    let ghost rest = read_list_spec(*t, big, b@, p2, len - k - 1);
                    match rest {
                        Err(_) => {},
                        Ok((vs, pp)) => {
                            assert(list@ + (seq![v] + vs) =~= list@.push(v) + vs);
                        },
                    }
                }
                list.push(v);
                p = p2;
                k += 1;
            }
            proof {
                assert(read_list_spec(*t, big, b@, p, 0) == Ok::<(Seq<DynamicScalar>, usize), PlyError>((
                    Seq::empty(),
                    p,
                )));
                assert(list@ + Seq::<DynamicScalar>::empty() =~= list@);
            }
            Ok((DynamicProperty::List(list), p))
        },
    }
}

/// The raw normal of a triangle's plane, from its corner positions.
pub open spec fn tri_normal(v0: crate::fp::V3, v1: crate::fp::V3, v2: crate::fp::V3) -> crate::fp::V3 {
    crate::fp::vnormalize(crate::fp::vcross(crate::fp::vsub(v2, v0), crate::fp::vsub(v1, v0)))
}

/// The accumulated (un-normalized) vertex normals after the first `k`
/// triangles: each triangle adds its plane normal to its three corners.
pub open spec fn accum_normals_upto(
    verts: Seq<crate::fp::V3>,
    tris: Seq<crate::mesh::Tri>,
    k: int,
) -> Seq<crate::fp::V3>
    decreases k,
{
    if k <= 0 {
        Seq::new(verts.len(), |i: int| crate::fp::v3_zero())
    } else {
        let acc = accum_normals_upto(verts, tris, k - 1);
        let t = tris[k - 1];
        let nrm = tri_normal(verts[t.a as int], verts[t.b as int], verts[t.c as int]);
        let a1 = acc.update(t.a as int, crate::fp::vadd(acc[t.a as int], nrm));
        let a2 = a1.update(t.b as int, crate::fp::vadd(a1[t.b as int], nrm));
        a2.update(t.c as int, crate::fp::vadd(a2[t.c as int], nrm))
    }
}

/// The derived vertex normals: each vertex's accumulated triangle
/// normals, renormalized to unit length.
pub open spec fn normals_of(verts: Seq<crate::fp::V3>, tris: Seq<crate::mesh::Tri>) -> Seq<
    crate::fp::V3,
> {
    Seq::new(
        verts.len(),
        |i: int| crate::fp::vnormalize(accum_normals_upto(verts, tris, tris.len() as int)[i]),
    )
}

/// Derives a unit normal per vertex by accumulating and renormalizing
/// the plane normals of the incident triangles.
pub fn compute_normals(verts: &Vec<crate::fp::V3>, tris: &Vec<crate::mesh::Tri>) -> (r: Vec<
    crate::fp::V3,
>)
    requires
        crate::mesh::tris_valid(tris@, verts@.len()),
    ensures
        r@ == normals_of(verts@, tris@),
{
    let n = verts.len();
    let mut acc: Vec<crate::fp::V3> = Vec::new();
    let mut i: usize = 0;
    while i < n
        invariant
            i <= n,
            acc@.len() == i,
            forall|p: int| 0 <= p < i ==> acc@[p] == crate::fp::v3_zero(),
        decreases n - i,
    {
        acc.push(crate::fp::v3_zero_e());
        i += 1;
    }
    assert(acc@ =~= accum_normals_upto(verts@, tris@, 0));
    let mut k: usize = 0;
    while k < tris.len()
        invariant
            k <= tris@.len(),
            n == verts@.len(),
            crate::mesh::tris_valid(tris@, verts@.len()),
            acc@.len() == n,
            acc@ == accum_normals_upto(verts@, tris@, k as int),
        decreases tris@.len() - k,
    {
        let t = tris[k];
        let nrm = crate::fp::vnormalize_w(
            crate::fp::vcross_w(
                crate::fp::vsub_w(verts[t.c], verts[t.a]),
                crate::fp::vsub_w(verts[t.b], verts[t.a]),
            ),
        );
        let na = crate::fp::vadd_w(acc[t.a], nrm);
        acc[t.a] = na;
        let nb = crate::fp::vadd_w(acc[t.b], nrm);
        acc[t.b] = nb;
        let nc = crate::fp::vadd_w(acc[t.c], nrm);
        acc[t.c] = nc;
        k += 1;
    }
    let mut r: Vec<crate::fp::V3> = Vec::new();
    let mut i2: usize = 0;
    while i2 < n
        invariant
            i2 <= n,
            n == verts@.len(),
            acc@.len() == n,
            acc@ == accum_normals_upto(verts@, tris@, tris@.len() as int),
            r@.len() == i2,
            forall|p: int|
                0 <= p < i2 ==> r@[p] == crate::fp::vnormalize(
                    accum_normals_upto(verts@, tris@, tris@.len() as int)[p],
                ),
        decreases n - i2,
    {
        r.push(crate::fp::vnormalize_w(acc[i2]));
        i2 += 1;
    }
    assert(r@ =~= normals_of(verts@, tris@));
    r
}

/// How far the next newline lies from `pos`.
pub open spec fn find_off(b: Seq<u8>, pos: int) -> nat
    decreases b.len() - pos,
{
    if pos < 0 || pos >= b.len() {
        0
    } else if b[pos] == 0x0A {
        0
    } else {
        1 + find_off(b, pos + 1)
    }
}

/// The next header line, if a newline remains: the bytes before it and
/// the position after it.
pub open spec fn next_line_spec(b: Seq<u8>, pos: usize) -> Option<(Seq<u8>, usize)> {
    let nl = pos + find_off(b, pos as int);
    if nl >= b.len() {
        None
    } else {
        Some((b.subrange(pos as int, nl as int), (nl + 1) as usize))
    }
}

/// The next header line: the bytes before the next newline, and the
/// position after it.  Without a newline the header has ended early.
pub fn next_line(bytes: &Vec<u8>, pos: usize) -> (r: Option<(Vec<u8>, usize)>)
    requires
        pos <= bytes@.len(),
    ensures
        (match (r, next_line_spec(bytes@, pos)) {
            (Some((line, p2)), Some((sline, sp2))) => line@ == sline && p2 == sp2,
            (None, None) => true,
            _ => false,
        }),
        r is Some ==> pos < (r->0).1 <= bytes@.len(),
{
    let n = bytes.len();
    let mut k = pos;
    while k < n
        invariant
            pos <= k <= n,
            n == bytes@.len(),
            find_off(bytes@, pos as int) == (k - pos) + find_off(bytes@, k as int),
        decreases n - k,
    {
        if bytes[k] == 0x0A {
            let mut line: Vec<u8> = Vec::new();
            let mut q = pos;
            while q < k
                invariant
                    pos <= q <= k < n,
                    n == bytes@.len(),
                    line@ == bytes@.subrange(pos as int, q as int),
                decreases k - q,
            {
                line.push(bytes[q]);
                assert(line@ =~= bytes@.subrange(pos as int, q as int + 1));
                q += 1;
            }
            return Some((line, k + 1));
        }
        k += 1;
    }
    assert(pos + find_off(bytes@, pos as int) >= n);
    None
}

/// A property declaration's content.
pub ghost struct PropModel {
    pub name: Seq<u8>,
    pub ty: PropertyType,
}

/// An element declaration's content.
pub ghost struct ElemModel {
    pub name: Seq<u8>,
    pub count: usize,
    pub props: Seq<PropModel>,
}

pub open spec fn prop_model(p: Property) -> PropModel {
    PropModel { name: p.name@, ty: p.ty }
}

pub open spec fn props_of(ps: Seq<Property>) -> Seq<PropModel> {
    Seq::new(ps.len(), |j: int| prop_model(ps[j]))
}

pub open spec fn elem_model(e: Element) -> ElemModel {
    ElemModel { name: e.name@, count: e.count, props: props_of(e.properties@) }
}

pub open spec fn elems_model(es: Seq<Element>) -> Seq<ElemModel> {
    Seq::new(es.len(), |i: int| elem_model(es[i]))
}

/// How an element's instances are consumed: `vertex` and `face` feed
/// the mesh, everything else is read and dropped.
pub open spec fn elem_kind(name: Seq<u8>) -> int {
    if name == "vertex".spec_bytes() {
        0
    } else if name == "face".spec_bytes() {
        1
    } else {
        2
    }
}

/// What one element instance has gathered from its properties so far.
#[derive(Clone, Copy, Debug)]
pub struct InstState {
    pub x: Option<u32>,
    pub y: Option<u32>,
    pub z: Option<u32>,
    pub idx: Option<crate::mesh::Tri>,
}

pub open spec fn empty_inst() -> InstState {
    InstState { x: None, y: None, z: None, idx: None }
}

/// How one read property value changes the instance: a vertex gathers
/// its coordinates from the scalars named `x`, `y` and `z`; a face
/// takes its three corner indices from the list named `vertex_indices`,
/// rejecting any other arity and non-integer entries; everything else
/// is dropped.
pub open spec fn visit_prop(kind: int, st: InstState, name: Seq<u8>, val: DynPropModel) -> Result<
    InstState,
    PlyError,
> {
    if kind == 0 {
        match val {
            DynPropModel::Scalar(s) => {
                if name == "x".spec_bytes() {
                    Ok(InstState { x: as_f32_spec(s), y: st.y, z: st.z, idx: st.idx })
                } else if name == "y".spec_bytes() {
                    Ok(InstState { x: st.x, y: as_f32_spec(s), z: st.z, idx: st.idx })
                } else if name == "z".spec_bytes() {
                    Ok(InstState { x: st.x, y: st.y, z: as_f32_spec(s), idx: st.idx })
                } else {
                    Ok(st)
                }
            },
            DynPropModel::List(_) => Ok(st),
        }
    } else if kind == 1 {
        match val {
            DynPropModel::Scalar(_) => Ok(st),
            DynPropModel::List(l) => {
                if name == "vertex_indices".spec_bytes() {
                    if l.len() != 3 {
                        Err(PlyError::BadFaceArity)
                    } else {
                        match (as_usize_spec(l[0]), as_usize_spec(l[1]), as_usize_spec(l[2])) {
                            (Some(a), Some(b), Some(c)) => Ok(
                                InstState {
                                    x: st.x,
                                    y: st.y,
                                    z: st.z,
                                    idx: Some(crate::mesh::Tri { a, b, c }),
                                },
                            ),
                            _ => Err(PlyError::BadIndexValue),
                        }
                    }
                } else {
                    Ok(st)
                }
            },
        }
    } else {
        Ok(st)
    }
}

/// The instance state and position after reading the properties from
/// `j` on.
pub open spec fn read_instance_from(
    kind: int,
    props: Seq<PropModel>,
    j: int,
    big: bool,
    b: Seq<u8>,
    pos: usize,
    st: InstState,
) -> Result<(InstState, usize), PlyError>
    decreases props.len() - j,
{
    if j < 0 || j >= props.len() {
        Ok((st, pos))
    } else {
        match read_property_spec(props[j].ty, big, b, pos) {
            Err(e) => Err(e),
            Ok((val, p2)) => match visit_prop(kind, st, props[j].name, val) {
                Err(e) => Err(e),
                Ok(st2) => read_instance_from(kind, props, j + 1, big, b, p2, st2),
            },
        }
    }
}

/// What a finished instance contributes: a vertex must have all three
/// coordinates, a face must have its corner indices.
pub open spec fn finish_instance(
    kind: int,
    st: InstState,
    verts: Seq<crate::fp::V3>,
    tris: Seq<crate::mesh::Tri>,
) -> Result<(Seq<crate::fp::V3>, Seq<crate::mesh::Tri>), PlyError> {
    if kind == 0 {
        match (st.x, st.y, st.z) {
            (Some(x), Some(y), Some(z)) => Ok((verts.push(crate::fp::V3 { x, y, z }), tris)),
            _ => Err(PlyError::MissingVertexComponent),
        }
    } else if kind == 1 {
        match st.idx {
            Some(t) => Ok((verts, tris.push(t))),
            None => Err(PlyError::MissingFaceIndices),
        }
    } else {
        Ok((verts, tris))
    }
}

/// The mesh data and position after reading `c` more instances of one
/// element.
pub open spec fn read_instances_from(
    kind: int,
    props: Seq<PropModel>,
    big: bool,
    b: Seq<u8>,
    pos: usize,
    c: int,
    verts: Seq<crate::fp::V3>,
    tris: Seq<crate::mesh::Tri>,
) -> Result<(Seq<crate::fp::V3>, Seq<crate::mesh::Tri>, usize), PlyError>
    decreases c,
{
    if c <= 0 {
        Ok((verts, tris, pos))
    } else {
        match read_instance_from(kind, props, 0, big, b, pos, empty_inst()) {
            Err(e) => Err(e),
            Ok((st, p2)) => match finish_instance(kind, st, verts, tris) {
                Err(e) => Err(e),
                Ok((v2, t2)) => read_instances_from(kind, props, big, b, p2, c - 1, v2, t2),
            },
        }
    }
}

/// The mesh data and position after reading the elements from `e` on.
pub open spec fn read_elements_from(
    elems: Seq<ElemModel>,
    e: int,
    big: bool,
    b: Seq<u8>,
    pos: usize,
    verts: Seq<crate::fp::V3>,
    tris: Seq<crate::mesh::Tri>,
) -> Result<(Seq<crate::fp::V3>, Seq<crate::mesh::Tri>, usize), PlyError>
    decreases elems.len() - e,
{
    if e < 0 || e >= elems.len() {
        Ok((verts, tris, pos))
    } else {
        let el = elems[e];
        match read_instances_from(
            elem_kind(el.name),
            el.props,
            big,
            b,
            pos,
            el.count as int,
            verts,
            tris,
        ) {
            Err(e2) => Err(e2),
            Ok((v2, t2, p2)) => read_elements_from(elems, e + 1, big, b, p2, v2, t2),
        }
    }
}

/// What the whole payload yields for the declared elements.
pub open spec fn payload_spec(b: Seq<u8>, pos: usize, elems: Seq<ElemModel>, big: bool) -> Result<
    (Seq<crate::fp::V3>, Seq<crate::mesh::Tri>),
    PlyError,
> {
    match read_elements_from(elems, 0, big, b, pos, Seq::empty(), Seq::empty()) {
        Err(e) => Err(e),
        Ok((v, t, _)) => Ok((v, t)),
    }
}

/// Reads the instances of the declared elements from the payload:
/// `vertex` instances contribute a position from their `x`, `y` and `z`
/// properties, `face` instances contribute a triangle from their
/// three-entry `vertex_indices` list, and other elements are read and
/// dropped.
pub fn parse_payload(bytes: &Vec<u8>, pos0: usize, elements: &Vec<Element>, big: bool) -> (r:
    Result<(Vec<crate::fp::V3>, Vec<crate::mesh::Tri>), PlyError>)
    requires
        pos0 <= bytes@.len(),
    ensures
        (match (r, payload_spec(bytes@, pos0, elems_model(elements@), big)) {
            (Ok((v, t)), Ok((sv, st))) => v@ == sv && t@ == st,
            (Err(e), Err(se)) => e == se,
            _ => false,
        }),
{
    let ghost bm = bytes@;
    let ghost em = elems_model(elements@);
    let ghost full = read_elements_from(em, 0, big, bm, pos0, Seq::empty(), Seq::empty());
    let mut verts: Vec<crate::fp::V3> = Vec::new();
    let mut tris: Vec<crate::mesh::Tri> = Vec::new();
    let mut pos = pos0;
    let mut e: usize = 0;
    while e < elements.len()
        invariant
            pos <= bytes@.len(),
            e <= elements@.len(),
            bm == bytes@,
            em == elems_model(elements@),
            full == read_elements_from(em, 0, big, bm, pos0, Seq::empty(), Seq::empty()),
            full == read_elements_from(em, e as int, big, bm, pos, verts@, tris@),
        decreases elements@.len() - e,
    {
        let el = &elements[e];
        proof {
            assert(em[e as int] == elem_model(elements@[e as int]));
        }
        // 0: vertex, 1: face, 2: anything else
        let kind: u8 = if token_is(&el.name, "vertex") {
            0
        } else if token_is(&el.name, "face") {
            1
        } else {
            2
        };
        let ghost props = elem_model(*el).props;
        let mut c: usize = 0;
        while c < el.count
            invariant
                pos <= bytes@.len(),
                c <= el.count,
                bm == bytes@,
                em == elems_model(elements@),
                e < elements@.len(),
                em[e as int] == elem_model(*el),
                props == elem_model(*el).props,
                kind as int == elem_kind(elem_model(*el).name),
                full == read_elements_from(em, 0, big, bm, pos0, Seq::empty(), Seq::empty()),
                full == (match read_instances_from(
                    kind as int,
                    props,
                    big,
                    bm,
                    pos,
                    el.count - c,
                    verts@,
                    tris@,
                ) {
                    Err(er) => Err::<(Seq<crate::fp::V3>, Seq<crate::mesh::Tri>, usize), PlyError>(
                        er,
                    ),
                    Ok((v2, t2, p2)) => read_elements_from(em, e as int + 1, big, bm, p2, v2, t2),
                }),
            decreases el.count - c,
        {
            proof {
                assert(read_instances_from(
                    kind as int,
                    props,
                    big,
                    bm,
                    pos,
                    el.count - c,
                    verts@,
                    tris@,
                ) == (match read_instance_from(kind as int, props, 0, big, bm, pos, empty_inst()) {
                    Err(er) => Err::<(Seq<crate::fp::V3>, Seq<crate::mesh::Tri>, usize), PlyError>(
                        er,
                    ),
                    Ok((st, p2)) => match finish_instance(kind as int, st, verts@, tris@) {
                        Err(er) => Err(er),
                        Ok((v2, t2)) => read_instances_from(
                            kind as int,
                            props,
                            big,
                            bm,
                            p2,
                            el.count - c - 1,
                            v2,
                            t2,
                        ),
                    },
                }));
            }
            let (st, pos2) = match read_instance_e(kind, &el.properties, big, bytes, pos) {
                Ok(q) => q,
                Err(err) => {
                    return Err(err);
                },
            };
            pos = pos2;
            let ghost verts_in = verts@;
            let ghost tris_in = tris@;
            let ghost fin = finish_instance(kind as int, st, verts_in, tris_in);
            if kind == 0 {
                let xv = match st.x {
                    Some(v) => v,
                    None => {
                        proof {
                            assert(fin == Err::<(Seq<crate::fp::V3>, Seq<crate::mesh::Tri>), PlyError>(
                                PlyError::MissingVertexComponent,
                            ));
                        }
                        return Err(PlyError::MissingVertexComponent);
                    },
                };
                let yv = match st.y {
                    Some(v) => v,
                    None => {
                        proof {
                            assert(fin == Err::<(Seq<crate::fp::V3>, Seq<crate::mesh::Tri>), PlyError>(
                                PlyError::MissingVertexComponent,
                            ));
                        }
                        return Err(PlyError::MissingVertexComponent);
                    },
                };
                let zv = match st.z {
                    Some(v) => v,
                    None => {
                        proof {
                            assert(fin == Err::<(Seq<crate::fp::V3>, Seq<crate::mesh::Tri>), PlyError>(
                                PlyError::MissingVertexComponent,
                            ));
                        }
                        return Err(PlyError::MissingVertexComponent);
                    },
                };
                verts.push(crate::fp::V3 { x: xv, y: yv, z: zv });
            } else if kind == 1 {
                match st.idx {
                    Some(t) => {
                        tris.push(t);
                    },
                    None => {
                        proof {
                            assert(fin == Err::<(Seq<crate::fp::V3>, Seq<crate::mesh::Tri>), PlyError>(
                                PlyError::MissingFaceIndices,
                            ));
                        }
                        return Err(PlyError::MissingFaceIndices);
                    },
                }
            }
            proof {
                assert(fin == Ok::<(Seq<crate::fp::V3>, Seq<crate::mesh::Tri>), PlyError>((
                    verts@,
                    tris@,
                )));
            }
            c += 1;
        }
        e += 1;
    }
    Ok((verts, tris))
}

/// Reads the properties of one element instance and gathers what its
/// kind keeps.
pub fn read_instance_e(kind: u8, props_vec: &Vec<Property>, big: bool, bytes: &Vec<u8>, pos: usize)
    -> (r: Result<(InstState, usize), PlyError>)
    requires
        pos <= bytes@.len(),
    ensures
        (match (r, read_instance_from(kind as int, props_of(props_vec@), 0, big, bytes@, pos, empty_inst())) {
            (Ok((st, p)), Ok((sst, sp))) => st == sst && p == sp,
            (Err(e), Err(se)) => e == se,
            _ => false,
        }),
        r is Ok ==> pos <= (r->Ok_0).1 <= bytes@.len(),
{
    let ghost bm = bytes@;
    let ghost pm = props_of(props_vec@);
    let ghost whole = read_instance_from(kind as int, pm, 0, big, bm, pos, empty_inst());
    let mut st = InstState { x: None, y: None, z: None, idx: None };
    let mut cur = pos;
    let mut p: usize = 0;
    while p < props_vec.len()
        invariant
            pos <= cur <= bytes@.len(),
            p <= props_vec@.len(),
            bm == bytes@,
            pm == props_of(props_vec@),
            whole == read_instance_from(kind as int, pm, 0, big, bm, pos, empty_inst()),
            whole == read_instance_from(kind as int, pm, p as int, big, bm, cur, st),
        decreases props_vec@.len() - p,
    {
        let prop = &props_vec[p];
        proof {
            assert(pm[p as int] == prop_model(props_vec@[p as int]));
        }
        let (value, pos2) = match read_property(&prop.ty, big, bytes, cur) {
            Ok(q) => q,
            Err(err) => {
                return Err(err);
            },
        };
        cur = pos2;
        if kind == 0 {
            match value {
                DynamicProperty::Scalar(s) => {
                    if token_is(&prop.name, "x") {
                        st.x = s.as_f32_bits();
                    } else if token_is(&prop.name, "y") {
                        st.y = s.as_f32_bits();
                    } else if token_is(&prop.name, "z") {
                        st.z = s.as_f32_bits();
                    }
                },
                DynamicProperty::List(_) => {},
            }
        } else if kind == 1 {
            match value {
                DynamicProperty::Scalar(_) => {},
                DynamicProperty::List(list) => {
                    if token_is(&prop.name, "vertex_indices") {
                        if list.len() != 3 {
                            return Err(PlyError::BadFaceArity);
                        }
                        let a = match list[0].as_usize() {
                            Some(v) => v,
                            None => {
                                return Err(PlyError::BadIndexValue);
                            },
                        };
                        let b = match list[1].as_usize() {
                            Some(v) => v,
                            None => {
                                return Err(PlyError::BadIndexValue);
                            },
                        };
                        let cc = match list[2].as_usize() {
                            Some(v) => v,
                            None => {
                                return Err(PlyError::BadIndexValue);
                            },
                        };
                        st.idx = Some(crate::mesh::Tri { a, b, c: cc });
                    }
                },
            }
        }
        p += 1;
    }
    Ok((st, cur))
}

/// The current element declaration's content, if one is open.
pub open spec fn opt_model(c: Option<Element>) -> Option<ElemModel> {
    match c {
        Some(e) => Some(elem_model(e)),
        None => None,
    }
}

/// Appends the open element declaration, if any, to the finished ones.
pub open spec fn flush(elems: Seq<ElemModel>, cur: Option<ElemModel>) -> Seq<ElemModel> {
    match cur {
        Some(el) => elems.push(el),
        None => elems,
    }
}

/// What the header's declaration lines yield, from `pos` on, with
/// `elems` declared so far and `cur` the open element: empty, comment
/// and unrecognized lines are skipped, `element` opens a declaration,
/// `property` extends the open one, and the header ends at its end
/// marker — or at the end of the input, in which case the open
/// declaration is abandoned, as a streaming reader abandons it when its
/// input runs dry.
pub open spec fn header_from(
    b: Seq<u8>,
    pos: usize,
    elems: Seq<ElemModel>,
    cur: Option<ElemModel>,
) -> Result<(Seq<ElemModel>, usize), PlyError>
    decreases b.len() - pos,
        when b.len() <= usize::MAX
{
    match next_line_spec(b, pos) {
        None => Ok((elems, pos)),
        Some((line, p2)) => {
            let toks = tokenize_spec(line);
            if toks.len() == 0 {
                header_from(b, p2, elems, cur)
            } else if toks[0] == "comment".spec_bytes() {
                header_from(b, p2, elems, cur)
            } else if toks[0] == "element".spec_bytes() {
                match element_line_of(toks, 1) {
                    Err(e) => Err(e),
                    Ok((name, count)) => header_from(
                        b,
                        p2,
                        flush(elems, cur),
                        Some(ElemModel { name, count, props: Seq::empty() }),
                    ),
                }
            } else if toks[0] == "property".spec_bytes() {
                match cur {
                    None => Err(PlyError::UnexpectedProperty),
                    Some(el) => match property_of(toks, 1) {
                        Err(e) => Err(e),
                        Ok((ty, pname, _)) => header_from(
                            b,
                            p2,
                            elems,
                            Some(
                                ElemModel {
                                    name: el.name,
                                    count: el.count,
                                    props: el.props.push(PropModel { name: pname, ty }),
                                },
                            ),
                        ),
                    },
                }
            } else if toks[0] == "end_header".spec_bytes() {
                Ok((flush(elems, cur), p2))
            } else {
                header_from(b, p2, elems, cur)
            }
        },
    }
}

/// Parses the header's element and property declarations.
#[verifier::rlimit(50)]
pub fn parse_header(bytes: &Vec<u8>, pos0: usize) -> (r: Result<(Vec<Element>, usize), PlyError>)
    requires
        pos0 <= bytes@.len(),
    ensures
        (match (r, header_from(bytes@, pos0, Seq::empty(), None)) {
            (Ok((es, p)), Ok((ses, sp))) => elems_model(es@) == ses && p == sp,
            (Err(e), Err(se)) => e == se,
            _ => false,
        }),
        r is Ok ==> (r->Ok_0).1 <= bytes@.len(),
{
    let ghost bm = bytes@;
    let ghost whole = header_from(bm, pos0, Seq::empty(), None);
    let blen = bytes.len();
    let mut elements: Vec<Element> = Vec::new();
    let mut cur: Option<Element> = None;
    let mut pos = pos0;
    proof {
        assert(elems_model(elements@) =~= Seq::<ElemModel>::empty());
    }
    loop
        invariant_except_break
            pos <= bytes@.len(),
            bm == bytes@,
            bm.len() == blen,
            whole == header_from(bm, pos0, Seq::empty(), None),
            whole == header_from(bm, pos, elems_model(elements@), opt_model(cur)),
        ensures
            pos <= bytes@.len(),
            whole == Ok::<(Seq<ElemModel>, usize), PlyError>((elems_model(elements@), pos)),
        decreases bytes@.len() - pos,
    {
        let (line, pos2) = match next_line(bytes, pos) {
            Some(q) => q,
            None => {
                break;
            },
        };
        pos = pos2;
        let tokens = tokenize(&line);
        if tokens.len() == 0 {
        } else if token_is(&tokens[0], "comment") {
        } else if token_is(&tokens[0], "element") {
            let ghost elems_in = elems_model(elements@);
            let ghost cur_in = opt_model(cur);
            let prev = cur;
            cur = None;
            match prev {
                Some(el) => {
                    elements.push(el);
                },
                None => {},
            }
            proof {
                assert(elems_model(elements@) =~= flush(elems_in, cur_in));
            }
            let (name, count) = match parse_element_line(&tokens, 1) {
                Ok(q) => q,
                Err(e) => {
                    return Err(e);
                },
            };
            cur = Some(Element { name, count, properties: Vec::new() });
            proof {
                assert(props_of(Seq::<Property>::empty()) =~= Seq::<PropModel>::empty());
            }
        } else if token_is(&tokens[0], "property") {
            match &mut cur {
                Some(el) => {
                    let ghost el_in = elem_model(*el);
                    let (p, _) = match parse_property(&tokens, 1) {
                        Ok(q) => q,
                        Err(e) => {
                            return Err(e);
                        },
                    };
                    let ghost pmodel = prop_model(p);
                    el.properties.push(p);
                    proof {
                        assert(props_of(el.properties@) =~= el_in.props.push(pmodel));
                    }
                },
                None => {
                    return Err(PlyError::UnexpectedProperty);
                },
            }
        } else if token_is(&tokens[0], "end_header") {
            let ghost elems_in = elems_model(elements@);
            let ghost cur_in = opt_model(cur);
            let prev = cur;
            cur = None;
            match prev {
                Some(el) => {
                    elements.push(el);
                },
                None => {},
            }
            proof {
                assert(elems_model(elements@) =~= flush(elems_in, cur_in));
            }
            break;
        } else {
            // An unrecognized header line is skipped.
        }
    }
    Ok((elements, pos))
}

/// What loading a mesh file yields: the vertices, the derived normals
/// and the triangles, or the first fault found — a bad magic line, a
/// missing or unknown format, a malformed declaration, a payload that
/// ends early or carries malformed values, or a triangle index out of
/// range.
pub open spec fn load_ply_spec(b: Seq<u8>) -> Result<
    (Seq<crate::fp::V3>, Seq<crate::fp::V3>, Seq<crate::mesh::Tri>),
    PlyError,
> {
    match next_line_spec(b, 0) {
        None => Err(PlyError::UnexpectedEnd),
        Some((l1, p1)) => {
            if l1 != "ply".spec_bytes() {
                Err(PlyError::InvalidMagic)
            } else {
                match next_line_spec(b, p1) {
                    None => Err(PlyError::UnexpectedEnd),
                    Some((l2, p2)) => {
                        let ft = tokenize_spec(l2);
                        if ft.len() == 0 || ft[0] != "format".spec_bytes() {
                            Err(PlyError::MissingFormatLine)
                        } else if !(ft.len() >= 2 && (ft[1] == "ascii".spec_bytes() || ft[1]
                            == "binary_big_endian".spec_bytes() || ft[1]
                            == "binary_little_endian".spec_bytes())) {
                            Err(PlyError::UnknownFormat)
                        } else {
                            match header_from(b, p2, Seq::empty(), None) {
                                Err(e) => Err(e),
                                Ok((elems, p3)) => {
                                    if ft[1] == "ascii".spec_bytes() {
                                        Err(PlyError::AsciiUnsupported)
                                    } else {
                                        let big = ft[1] == "binary_big_endian".spec_bytes();
                                        match payload_spec(b, p3, elems, big) {
                                            Err(e) => Err(e),
                                            Ok((verts, tris)) => {
                                                if !crate::mesh::tris_valid(tris, verts.len()) {
                                                    Err(PlyError::IndexOutOfRange)
                                                } else {
                                                    Ok(
                                                        (
                                                            verts,
                                                            normals_of(verts, tris),
                                                            tris,
                                                        ),
                                                    )
                                                }
                                            },
                                        }
                                    }
                                },
                            }
                        }
                    },
                }
            }
        },
    }
}

/// Loads a binary mesh file from its bytes: the magic line, the format
/// line, the element and property declarations up to the header's end,
/// then the payload.  Triangle indices are validated before any
/// geometric work, and a unit normal per vertex is derived from the
/// triangles; the result satisfies the invariant the rest of the
/// pipeline requires.
#[verifier::rlimit(50)]
pub fn load_ply(bytes: &Vec<u8>) -> (r: Result<crate::mesh::InputMesh, PlyError>)
    ensures
        (match (r, load_ply_spec(bytes@)) {
            (Ok(mesh), Ok((sv, sn, st))) => mesh.vertices@ == sv && mesh.normals@ == sn
                && mesh.tris@ == st,
            (Err(e), Err(se)) => e == se,
            _ => false,
        }),
        (match r {
            Ok(mesh) => mesh.wf() && mesh.normals@ == normals_of(mesh.vertices@, mesh.tris@),
            Err(_) => true,
        }),
{
    let (magic, pos0) = match next_line(bytes, 0) {
        Some(q) => q,
        None => {
            return Err(PlyError::UnexpectedEnd);
        },
    };
    if !token_is(&magic, "ply") {
        return Err(PlyError::InvalidMagic);
    }
    let (format_line, pos1) = match next_line(bytes, pos0) {
        Some(q) => q,
        None => {
            return Err(PlyError::UnexpectedEnd);
        },
    };
    let ftokens = tokenize(&format_line);
    proof {
        assert(tokens_view(ftokens@).len() == ftokens@.len());
        if ftokens@.len() > 0 {
            assert(tokens_view(ftokens@)[0] == ftokens@[0]@);
        }
        if ftokens@.len() > 1 {
            assert(tokens_view(ftokens@)[1] == ftokens@[1]@);
        }
    }
    if ftokens.len() == 0 || !token_is(&ftokens[0], "format") {
        return Err(PlyError::MissingFormatLine);
    }
    let format = if ftokens.len() >= 2 && token_is(&ftokens[1], "ascii") {
        Format::Ascii
    } else if ftokens.len() >= 2 && token_is(&ftokens[1], "binary_big_endian") {
        Format::BigEndian
    } else if ftokens.len() >= 2 && token_is(&ftokens[1], "binary_little_endian") {
        Format::LittleEndian
    } else {
        return Err(PlyError::UnknownFormat);
    };
    let (elements, pos) = match parse_header(bytes, pos1) {
        Ok(q) => q,
        Err(e) => {
            return Err(e);
        },
    };
    let big = match format {
        Format::Ascii => {
            // Text payloads are not read; the caller sees an error
            // rather than a failure of the whole process.
            return Err(PlyError::AsciiUnsupported);
        },
        Format::BigEndian => true,
        Format::LittleEndian => false,
    };
    let (verts, tris) = match parse_payload(bytes, pos, &elements, big) {
        Ok(q) => q,
        Err(e) => {
            return Err(e);
        },
    };
    let ghost lps = load_ply_spec(bytes@);
    proof {
        assert(lps == (if crate::mesh::tris_valid(tris@, verts@.len()) {
            Ok::<(Seq<crate::fp::V3>, Seq<crate::fp::V3>, Seq<crate::mesh::Tri>), PlyError>((
                verts@,
                normals_of(verts@, tris@),
                tris@,
            ))
        } else {
            Err(PlyError::IndexOutOfRange)
        }));
    }
    let n = verts.len();
    let mut k: usize = 0;
    while k < tris.len()
        invariant
            k <= tris@.len(),
            n == verts@.len(),
            lps == (if crate::mesh::tris_valid(tris@, verts@.len()) {
                Ok::<(Seq<crate::fp::V3>, Seq<crate::fp::V3>, Seq<crate::mesh::Tri>), PlyError>((
                    verts@,
                    normals_of(verts@, tris@),
                    tris@,
                ))
            } else {
                Err(PlyError::IndexOutOfRange)
            }),
            lps == load_ply_spec(bytes@),
            forall|i: int|
                0 <= i < k ==> (#[trigger] tris@[i]).a < n && tris@[i].b < n && tris@[i].c < n,
        decreases tris@.len() - k,
    {
        let t = tris[k];
        if t.a >= n || t.b >= n || t.c >= n {
            proof {
                assert(!crate::mesh::tris_valid(tris@, verts@.len()));
            }
            return Err(PlyError::IndexOutOfRange);
        }
        k += 1;
    }
    proof {
        assert(crate::mesh::tris_valid(tris@, verts@.len()));
    }
    let normals = compute_normals(&verts, &tris);
    Ok(crate::mesh::InputMesh { vertices: verts, normals, tris })
}

} // verus!
