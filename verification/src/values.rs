use vstd::prelude::*;
use vstd::endian::{Endian, endianness};
use crate::model::{Model, Type, get_type_size, type_size};
use crate::scheduler::{RuntimeState, RuntimeView};

verus! {

/// Whether values of `ty` are integers.
pub open spec fn is_integer_type(ty: Type) -> bool {
    !(ty is F32 || ty is F64 || ty is Pointer || ty is String)
}

/// Whether values of `ty` are signed integers.
pub open spec fn is_signed(ty: Type) -> bool {
    ty is I8 || ty is I16 || ty is I32 || ty is I64 || ty is Isize
}

/// The least value of the integer type `ty`.
pub open spec fn type_min(ty: Type) -> int {
    match ty {
        Type::I8 => i8::MIN as int,
        Type::I16 => i16::MIN as int,
        Type::I32 => i32::MIN as int,
        Type::I64 => i64::MIN as int,
        Type::Isize => isize::MIN as int,
        _ => 0,
    }
}

/// The greatest value of the integer type `ty`.
pub open spec fn type_max(ty: Type) -> int {
    match ty {
        Type::I8 => i8::MAX as int,
        Type::U8 => u8::MAX as int,
        Type::I16 => i16::MAX as int,
        Type::U16 => u16::MAX as int,
        Type::I32 => i32::MAX as int,
        Type::U32 => u32::MAX as int,
        Type::I64 => i64::MAX as int,
        Type::U64 => u64::MAX as int,
        Type::Isize => isize::MAX as int,
        Type::Usize => usize::MAX as int,
        _ => 0,
    }
}

/// The `n` bytes of `u` (modulo 256 to the `n`), least significant first.
pub open spec fn le_bytes(u: nat, n: nat) -> Seq<u8>
    decreases n,
{
    if n == 0 {
        Seq::empty()
    } else {
        seq![(u % 256) as u8] + le_bytes(u / 256, (n - 1) as nat)
    }
}

/// The number whose bytes, least significant first, are `s`.
pub open spec fn le_value(s: Seq<u8>) -> nat
    decreases s.len(),
{
    if s.len() == 0 {
        0
    } else {
        s[0] as nat + 256 * le_value(s.drop_first())
    }
}

/// Bytes in least-significant-first order, put in the machine's byte order
/// (and back: the reordering is its own inverse).
pub open spec fn in_native_order(s: Seq<u8>) -> Seq<u8> {
    match endianness() {
        Endian::Little => s,
        Endian::Big => s.reverse(),
    }
}

/// The two's-complement image of `v` as a value of the integer type `ty`.
pub open spec fn unsigned_image(ty: Type, v: int) -> nat {
    if v < 0 {
        (v + 2 * (type_max(ty) + 1)) as nat
    } else {
        v as nat
    }
}

/// The memory representation of `v` as a value of the integer type `ty`:
/// its bytes in the machine's byte order.
pub open spec fn native_encoding(ty: Type, v: int) -> Seq<u8> {
    in_native_order(le_bytes(unsigned_image(ty, v), type_size(ty)))
}

/// The value of the integer type `ty` whose memory representation is the
/// first bytes of `bytes`.
pub open spec fn native_value(ty: Type, bytes: Seq<u8>) -> int {
    let u = le_value(in_native_order(bytes.take(type_size(ty) as int)));
    if is_signed(ty) && u > type_max(ty) {
        u - 2 * (type_max(ty) + 1)
    } else {
        u as int
    }
}

/// Calls `u16::from_ne_bytes` on the bytes 1 and 0. Its documented result is
/// the number whose memory representation in the machine's byte order is
/// those bytes: 1 where the least significant byte comes first, 256 where it
/// comes last.
#[verifier::external_body]
fn u16_from_one_then_zero() -> (v: u16)
    ensures
        v == (if endianness() is Little { 1u16 } else { 256u16 }),
{
    u16::from_ne_bytes([1, 0])
}

/// Whether the machine stores the least significant byte first.
pub fn native_is_little_endian() -> (little: bool)
    ensures
        little == (endianness() is Little),
{
    u16_from_one_then_zero() == 1
}

/// `v` in reverse order.
fn reversed(v: &Vec<u8>) -> (r: Vec<u8>)
    ensures
        r@ == v@.reverse(),
{
    let mut r: Vec<u8> = Vec::new();
    let n: usize = v.len();
    let mut i: usize = n;
    while i > 0
        invariant
            n == v@.len(),
            i <= n,
            r@ =~= v@.subrange(i as int, n as int).reverse(),
        decreases i,
    {
        i = i - 1;
        r.push(v[i]);
        assert(v@.subrange(i as int, n as int).reverse() =~= v@.subrange(i + 1, n as int).reverse().push(v@[i as int]));
    }
    assert(v@.subrange(0, n as int) =~= v@);
    r
}

/// The `n` bytes of `u` in the machine's byte order.
fn encode_native(u: u128, n: usize) -> (bytes: Vec<u8>)
    ensures
        bytes@ == in_native_order(le_bytes(u as nat, n as nat)),
{
    let mut le: Vec<u8> = Vec::new();
    let mut rest: u128 = u;
    let mut i: usize = 0;
    while i < n
        invariant
            i <= n,
            le@ + le_bytes(rest as nat, (n - i) as nat) == le_bytes(u as nat, n as nat),
        decreases n - i,
    {
        let ghost before = le@;
        le.push((rest % 256) as u8);
        proof {
            let tail = le_bytes((rest / 256) as nat, (n - i - 1) as nat);
            assert(le_bytes(rest as nat, (n - i) as nat) == seq![(rest % 256) as u8] + tail);
            assert(le@ + tail =~= before + (seq![(rest % 256) as u8] + tail));
        }
        rest = rest / 256;
        i = i + 1;
    }
    assert(le@ + le_bytes(rest as nat, 0) =~= le@);
    if native_is_little_endian() {
        le
    } else {
        reversed(&le)
    }
}

/// 256 to the power `k`.
pub open spec fn pow256(k: nat) -> nat
    decreases k,
{
    if k == 0 {
        1
    } else {
        256 * pow256((k - 1) as nat)
    }
}

proof fn lemma_pow256_small(k: nat)
    requires
        k <= 8,
    ensures
        pow256(k) <= 0x1_0000_0000_0000_0000,
{
    reveal_with_fuel(pow256, 9);
    if k == 0 {
    } else if k == 1 {
    } else if k == 2 {
    } else if k == 3 {
    } else if k == 4 {
    } else if k == 5 {
    } else if k == 6 {
    } else if k == 7 {
    } else {
    }
}

/// The first `n` bytes of `bytes`, read as an unsigned number in the machine's byte order.
fn decode_native(bytes: &Vec<u8>, n: usize) -> (u: u128)
    requires
        n <= bytes@.len(),
        n <= 8,
    ensures
        u as nat == le_value(in_native_order(bytes@.take(n as int))),
        (u as nat) < pow256(n as nat),
{
    let mut prefix: Vec<u8> = Vec::new();
    let mut i: usize = 0;
    while i < n
        invariant
            i <= n,
            n <= bytes@.len(),
            prefix@ =~= bytes@.take(i as int),
        decreases n - i,
    {
        prefix.push(bytes[i]);
        i = i + 1;
    }
    let le: Vec<u8> = if native_is_little_endian() {
        prefix
    } else {
        reversed(&prefix)
    };
    assert(le@ == in_native_order(bytes@.take(n as int)));
    let mut acc: u128 = 0;
    let mut k: usize = n;
    assert(le@.subrange(n as int, n as int) =~= Seq::<u8>::empty());
    while k > 0
        invariant
            k <= n,
            n <= 8,
            le@.len() == n,
            acc as nat == le_value(le@.subrange(k as int, n as int)),
            (acc as nat) < pow256((n - k) as nat),
        decreases k,
    {
        proof {
            lemma_pow256_small((n - k + 1) as nat);
            let p = pow256((n - k) as nat);
            assert(pow256((n - k + 1) as nat) == 256 * p);
            assert(acc * 256 + 255 < 256 * p) by (nonlinear_arith)
                requires
                    acc < p,
            ;
        }
        k = k - 1;
        let b: u8 = le[k];
        proof {
            let s = le@.subrange(k as int, n as int);
            assert(s.drop_first() =~= le@.subrange(k + 1, n as int));
            assert(s[0] == b);
        }
        acc = acc * 256 + b as u128;
    }
    assert(le@.subrange(0, n as int) =~= le@);
    acc
}

/// Whether `c` is an ASCII decimal digit.
pub open spec fn is_decimal_digit(c: char) -> bool {
    ('0' as int) <= (c as int) <= ('9' as int)
}

/// Every character of `s` is an ASCII decimal digit.
pub open spec fn all_decimal_digits(s: Seq<char>) -> bool {
    forall|i: int| 0 <= i < s.len() ==> is_decimal_digit(#[trigger] s[i])
}

/// The number written by the decimal digits `s`.
pub open spec fn digits_value(s: Seq<char>) -> int
    decreases s.len(),
{
    if s.len() == 0 {
        0
    } else {
        10 * digits_value(s.drop_last()) + ((s.last() as int) - ('0' as int))
    }
}

/// The integer that `s` writes in decimal: an optional `+` or `-` sign
/// followed by one or more decimal digits, and nothing else.
pub open spec fn decimal_text_value(s: Seq<char>) -> Option<int> {
    let signed = s.len() > 0 && (s[0] == '+' || s[0] == '-');
    let digits = if signed {
        s.drop_first()
    } else {
        s
    };
    if digits.len() > 0 && all_decimal_digits(digits) {
        Some(if signed && s[0] == '-' {
            -digits_value(digits)
        } else {
            digits_value(digits)
        })
    } else {
        None
    }
}

/// Calls `str::parse::<i128>`. As its documentation states (`FromStr` for
/// `i128`, which is `i128::from_str_radix` in radix 10), the text must be an
/// optional `+` or `-` sign followed by one or more ASCII decimal digits, and
/// the number must lie within the range of `i128`; anything else is an error.
#[verifier::external_body]
fn parse_i128(s: &str) -> (v: Option<i128>)
    ensures
        v == (match decimal_text_value(s@) {
            Some(x) => if i128::MIN <= x <= i128::MAX {
                Some(x as i128)
            } else {
                None
            },
            None => None,
        }),
{
    s.parse::<i128>().ok()
}

/// The value of the integer type `ty` that the argument `s` writes: a decimal
/// number within the type's range, with an optional sign, where a `-` sign is
/// refused for unsigned types (even before zero).
pub open spec fn parsed_input(ty: Type, s: Seq<char>) -> Option<int> {
    if !is_signed(ty) && s.len() > 0 && s[0] == '-' {
        None
    } else {
        match decimal_text_value(s) {
            Some(v) => if type_min(ty) <= v <= type_max(ty) {
                Some(v)
            } else {
                None
            },
            None => None,
        }
    }
}

/// The least and greatest value of the integer type `ty`.
fn integer_bounds(ty: Type) -> (bounds: (i128, i128))
    requires
        is_integer_type(ty),
    ensures
        bounds.0 == type_min(ty),
        bounds.1 == type_max(ty),
{
    match ty {
        Type::I8 => (i8::MIN as i128, i8::MAX as i128),
        Type::U8 => (0, u8::MAX as i128),
        Type::I16 => (i16::MIN as i128, i16::MAX as i128),
        Type::U16 => (0, u16::MAX as i128),
        Type::I32 => (i32::MIN as i128, i32::MAX as i128),
        Type::U32 => (0, u32::MAX as i128),
        Type::I64 => (i64::MIN as i128, i64::MAX as i128),
        Type::U64 => (0, u64::MAX as i128),
        Type::Isize => (isize::MIN as i128, isize::MAX as i128),
        _ => (0, usize::MAX as i128),
    }
}

/// Whether values of `ty` are signed integers.
fn type_is_signed(ty: Type) -> (signed: bool)
    ensures
        signed == is_signed(ty),
{
    match ty {
        Type::I8 | Type::I16 | Type::I32 | Type::I64 | Type::Isize => true,
        _ => false,
    }
}

/// How an input argument becomes the bytes of its variable.
#[derive(Debug, PartialEq, Eq)]
pub enum InputEncoding {
    /// The memory representation of the integer that the argument writes.
    Native(Vec<u8>),
    /// The argument is to be read as an `f32`.
    Float32,
    /// The argument is to be read as an `f64`.
    Float64,
    /// The argument is to be kept as a C string, whose address is stored.
    CString,
}

/// Why the program's arguments cannot become the model's inputs.
#[derive(Clone, Copy, Debug, PartialEq, Eq, Structural)]
pub enum InputError {
    /// The number of arguments (after the program's name) is not the number of inputs.
    ArgumentCount { expected: usize, found: usize },
    /// The argument is not a value of the input's type.
    Parse(Type),
    /// Inputs of this type are not supported.
    Unsupported(Type),
}

/// Why the argument `s` cannot be given for an input of type `ty`, if it cannot.
pub open spec fn input_error(ty: Type, s: Seq<char>) -> Option<InputError> {
    if ty is Pointer {
        Some(InputError::Unsupported(ty))
    } else if is_integer_type(ty) && parsed_input(ty, s) is None {
        Some(InputError::Parse(ty))
    } else {
        None
    }
}

/// `encoding` is how the argument `s` of an input of type `ty` is encoded.
pub open spec fn encodes(ty: Type, s: Seq<char>, encoding: InputEncoding) -> bool {
    match ty {
        Type::F32 => encoding == InputEncoding::Float32,
        Type::F64 => encoding == InputEncoding::Float64,
        Type::String => encoding == InputEncoding::CString,
        Type::Pointer => false,
        _ => encoding matches InputEncoding::Native(bytes) && bytes@ == native_encoding(
            ty,
            parsed_input(ty, s)->0,
        ),
    }
}

/// Encodes `arg`, the argument given for an input of type `ty`: an integer
/// type takes the memory representation of the number that `arg` writes;
/// floating-point and string inputs are left to be read as such; pointer
/// inputs are unsupported.
pub fn encode_input(ty: Type, arg: &str) -> (result: Result<InputEncoding, InputError>)
    ensures
        match result {
            Ok(encoding) => input_error(ty, arg@) is None && encodes(ty, arg@, encoding),
            Err(e) => input_error(ty, arg@) == Some(e),
        },
        is_integer_type(ty) ==> forall|v: int|
            type_min(ty) <= v <= type_max(ty) && arg@ == #[trigger] decimal_text(v) ==> (result matches Ok(
                InputEncoding::Native(bytes),
            ) && bytes@ == native_encoding(ty, v)),
{
    proof {
        if is_integer_type(ty) {
            assert forall|v: int| type_min(ty) <= v <= type_max(ty) && arg@ == #[trigger] decimal_text(v) implies parsed_input(
                ty,
                arg@,
            ) == Some(v) by {
                lemma_decimal_text_accepted(ty, v);
            }
        }
    }
    match ty {
        Type::F32 => Ok(InputEncoding::Float32),
        Type::F64 => Ok(InputEncoding::Float64),
        Type::String => Ok(InputEncoding::CString),
        Type::Pointer => Err(InputError::Unsupported(ty)),
        _ => {
            let (lo, hi) = integer_bounds(ty);
            if !type_is_signed(ty) {
                let mut chars = arg.chars();
                if let Some(c) = chars.next() {
                    if c == '-' {
                        return Err(InputError::Parse(ty));
                    }
                }
            }
            let v: i128 = match parse_i128(arg) {
                Some(v) => v,
                None => {
                    return Err(InputError::Parse(ty));
                },
            };
            if v < lo || v > hi {
                return Err(InputError::Parse(ty));
            }
            let u: u128 = if v < 0 {
                (v + 2 * (hi + 1)) as u128
            } else {
                v as u128
            };
            let n: usize = get_type_size(&ty);
            Ok(InputEncoding::Native(encode_native(u, n)))
        },
    }
}

/// Checks that `given`, the number of the program's arguments after its name,
/// is the number of the model's inputs.
pub fn check_argument_count(model: &Model, given: usize) -> (result: Result<(), InputError>)
    ensures
        result == (if given == model.inputs@.len() {
            Ok::<(), InputError>(())
        } else {
            Err(InputError::ArgumentCount { expected: model.inputs@.len() as usize, found: given })
        }),
{
    if given != model.inputs.len() {
        Err(InputError::ArgumentCount { expected: model.inputs.len(), found: given })
    } else {
        Ok(())
    }
}

/// What an output variable holds.
#[derive(Debug, PartialEq, Eq)]
pub enum OutputValue {
    /// The value of an integer variable.
    Integer(i128),
    /// The memory representation of an `f32`.
    Float32(Vec<u8>),
    /// The memory representation of an `f64`.
    Float64(Vec<u8>),
    /// The address of a C string.
    CString(usize),
    /// The variable has not been computed.
    NotComputed,
}

/// Why an output variable cannot be read.
#[derive(Clone, Copy, Debug, PartialEq, Eq, Structural)]
pub enum OutputError {
    /// Outputs of this type are not supported.
    Unsupported(Type),
    /// The stored value is shorter than a value of its type.
    Truncated(Type),
    /// The output id names no variable of the model.
    Undeclared(u32),
}

/// `result` is what reading the stored bytes `bytes` of a variable of type
/// `ty` gives: pointers are unsupported; a value shorter than its type is
/// truncated; an integer is the value that its memory representation stands
/// for; a float is its memory representation; a string is the address stored.
pub open spec fn decodes(ty: Type, bytes: Seq<u8>, result: Result<OutputValue, OutputError>) -> bool {
    if ty is Pointer {
        result == Err::<OutputValue, OutputError>(OutputError::Unsupported(ty))
    } else if bytes.len() < type_size(ty) {
        result == Err::<OutputValue, OutputError>(OutputError::Truncated(ty))
    } else {
        match ty {
            Type::F32 => result matches Ok(OutputValue::Float32(b)) && b@ == bytes.take(4),
            Type::F64 => result matches Ok(OutputValue::Float64(b)) && b@ == bytes.take(8),
            Type::String => result == Ok::<OutputValue, OutputError>(
                OutputValue::CString(
                    le_value(in_native_order(bytes.take(vstd::layout::size_of::<usize>() as int))) as usize,
                ),
            ),
            _ => result == Ok::<OutputValue, OutputError>(OutputValue::Integer(native_value(ty, bytes) as i128)),
        }
    }
}

/// What output variable `id` holds in `state`: `NotComputed` if it has no
/// value, and otherwise what reading its stored bytes gives.
pub fn output_value(state: &RuntimeState, id: u32) -> (result: Result<OutputValue, OutputError>)
    requires
        (id as int) < state@.model.variables@.len(),
    ensures
        !state@.computed.contains_key(id) ==> result == Ok::<OutputValue, OutputError>(OutputValue::NotComputed),
        state@.computed.contains_key(id) ==> decodes(
            state@.model.variables@[id as int].ty,
            state@.computed[id]@,
            result,
        ),
{
    match state.request(id) {
        Some(bytes) => decode_output(state.model().variables[id as usize].ty, bytes),
        None => Ok(OutputValue::NotComputed),
    }
}

/// `result` is what reading output `id` of the runtime state `v` gives: an id
/// that names no variable is refused, a variable not computed is
/// `NotComputed`, and otherwise it is what reading its stored bytes gives.
pub open spec fn output_read(v: RuntimeView, id: u32, result: Result<OutputValue, OutputError>) -> bool {
    if (id as int) >= v.model.variables@.len() {
        result == Err::<OutputValue, OutputError>(OutputError::Undeclared(id))
    } else if !v.computed.contains_key(id) {
        result == Ok::<OutputValue, OutputError>(OutputValue::NotComputed)
    } else {
        decodes(v.model.variables@[id as int].ty, v.computed[id]@, result)
    }
}

/// What each output of the model holds, in the order of the model's outputs.
pub fn output_values(state: &RuntimeState) -> (values: Vec<(u32, Result<OutputValue, OutputError>)>)
    ensures
        values@.len() == state@.model.outputs@.len(),
        forall|j: int| 0 <= j < values@.len() ==> {
            &&& (#[trigger] values@[j]).0 == state@.model.outputs@[j]
            &&& output_read(state@, values@[j].0, values@[j].1)
        },
{
    let model: &Model = state.model();
    let n: usize = model.outputs.len();
    let mut values: Vec<(u32, Result<OutputValue, OutputError>)> = Vec::new();
    let mut j: usize = 0;
    while j < n
        invariant
            *model == state@.model,
            n == model.outputs@.len(),
            j <= n,
            values@.len() == j,
            forall|k: int| 0 <= k < j ==> {
                &&& (#[trigger] values@[k]).0 == state@.model.outputs@[k]
                &&& output_read(state@, values@[k].0, values@[k].1)
            },
        decreases n - j,
    {
        let id: u32 = model.outputs[j];
        let result = if (id as usize) < model.variables.len() {
            output_value(state, id)
        } else {
            Err(OutputError::Undeclared(id))
        };
        let ghost prev = values@;
        values.push((id, result));
        proof {
            assert forall|k: int| 0 <= k < j + 1 implies {
                &&& (#[trigger] values@[k]).0 == state@.model.outputs@[k]
                &&& output_read(state@, values@[k].0, values@[k].1)
            } by {
                if k < j {
                    assert(values@[k] == prev[k]);
                }
            }
        }
        j = j + 1;
    }
    values
}

/// Reads the stored bytes of a variable of type `ty`.
pub fn decode_output(ty: Type, bytes: &Vec<u8>) -> (result: Result<OutputValue, OutputError>)
    ensures
        decodes(ty, bytes@, result),
        ty is String && bytes@.len() >= type_size(ty) ==> (result matches Ok(OutputValue::CString(a))
            && bytes@.take(vstd::layout::size_of::<usize>() as int) == in_native_order(
            le_bytes(a as nat, vstd::layout::size_of::<usize>()),
        )),
        is_integer_type(ty) && bytes@.len() >= type_size(ty) ==> (result matches Ok(OutputValue::Integer(x))
            && type_min(ty) <= x <= type_max(ty) && native_encoding(ty, x as int) == bytes@.take(
            type_size(ty) as int,
        )),
{
    broadcast use vstd::layout::layout_of_primitives;

    if let Type::Pointer = ty {
        return Err(OutputError::Unsupported(ty));
    }
    let size: usize = get_type_size(&ty);
    if bytes.len() < size {
        return Err(OutputError::Truncated(ty));
    }
    match ty {
        Type::F32 | Type::F64 => {
            let mut raw: Vec<u8> = Vec::new();
            let mut i: usize = 0;
            while i < size
                invariant
                    i <= size,
                    size <= bytes@.len(),
                    raw@ =~= bytes@.take(i as int),
                decreases size - i,
            {
                raw.push(bytes[i]);
                i = i + 1;
            }
            if let Type::F32 = ty {
                Ok(OutputValue::Float32(raw))
            } else {
                Ok(OutputValue::Float64(raw))
            }
        },
        Type::String => {
            let n: usize = std::mem::size_of::<usize>();
            let u: u128 = decode_native(bytes, n);
            proof {
                reveal_with_fuel(pow256, 9);
                let take = bytes@.take(n as int);
                lemma_native_order_involutive(take);
                lemma_le_bytes_of_le_value(in_native_order(take));
                lemma_native_order_involutive(le_bytes(u as nat, n as nat));
            }
            Ok(OutputValue::CString(u as usize))
        },
        _ => {
            let (_lo, hi) = integer_bounds(ty);
            let u: u128 = decode_native(bytes, size);
            proof {
                reveal_with_fuel(pow256, 9);
                lemma_integer_span(ty);
                let take = bytes@.take(size as int);
                lemma_native_order_involutive(take);
                lemma_le_bytes_of_le_value(in_native_order(take));
                lemma_native_order_involutive(le_bytes(u as nat, size as nat));
            }
            if type_is_signed(ty) && (u as i128) > hi {
                Ok(OutputValue::Integer((u as i128) - 2 * (hi + 1)))
            } else {
                Ok(OutputValue::Integer(u as i128))
            }
        },
    }
}

pub proof fn lemma_le_bytes_len(u: nat, n: nat)
    ensures
        le_bytes(u, n).len() == n,
    decreases n,
{
    if n > 0 {
        lemma_le_bytes_len(u / 256, (n - 1) as nat);
    }
}

proof fn lemma_le_value_of_le_bytes(u: nat, n: nat)
    requires
        u < pow256(n),
    ensures
        le_value(le_bytes(u, n)) == u,
    decreases n,
{
    if n > 0 {
        let rest = le_bytes(u / 256, (n - 1) as nat);
        assert(u / 256 < pow256((n - 1) as nat)) by (nonlinear_arith)
            requires
                u < 256 * pow256((n - 1) as nat),
        ;
        lemma_le_value_of_le_bytes(u / 256, (n - 1) as nat);
        let s = le_bytes(u, n);
        assert(s.drop_first() =~= rest);
        assert(s[0] as nat == u % 256);
    }
}

pub proof fn lemma_native_order_involutive(s: Seq<u8>)
    ensures
        in_native_order(in_native_order(s)) == s,
        in_native_order(s).len() == s.len(),
{
    assert(s.reverse().reverse() =~= s);
}

/// The span of the integer type `ty` is 256 to the power of its size, and a
/// signed type spans as many negative values as non-negative ones.
proof fn lemma_integer_span(ty: Type)
    requires
        is_integer_type(ty),
    ensures
        type_size(ty) <= 8,
        is_signed(ty) ==> 2 * (type_max(ty) + 1) == pow256(type_size(ty)) && type_min(ty) == -(type_max(ty) + 1),
        !is_signed(ty) ==> type_max(ty) + 1 == pow256(type_size(ty)) && type_min(ty) == 0,
{
    broadcast use vstd::layout::layout_of_primitives;

    reveal_with_fuel(pow256, 9);
}

/// An integer input reads back as the number its argument writes: the value
/// read from the memory representation of `v` in `ty` is `v`.
pub proof fn lemma_input_reads_back(ty: Type, v: int)
    requires
        is_integer_type(ty),
        type_min(ty) <= v <= type_max(ty),
    ensures
        native_value(ty, native_encoding(ty, v)) == v,
{
    lemma_integer_span(ty);
    let n = type_size(ty);
    let u = unsigned_image(ty, v);
    let le = le_bytes(u, n);
    lemma_le_bytes_len(u, n);
    lemma_native_order_involutive(le);
    let enc = native_encoding(ty, v);
    assert(enc.take(n as int) =~= enc);
    lemma_le_value_of_le_bytes(u, n);
}

/// The decimal digit character for `d`, a number from 0 to 9.
pub open spec fn digit_char(d: int) -> char {
    if d == 0 {
        '0'
    } else if d == 1 {
        '1'
    } else if d == 2 {
        '2'
    } else if d == 3 {
        '3'
    } else if d == 4 {
        '4'
    } else if d == 5 {
        '5'
    } else if d == 6 {
        '6'
    } else if d == 7 {
        '7'
    } else if d == 8 {
        '8'
    } else {
        '9'
    }
}

/// The decimal digits of `n`, most significant first, without leading zeros.
pub open spec fn digits_text(n: nat) -> Seq<char>
    decreases n,
{
    if n < 10 {
        seq![digit_char(n as int)]
    } else {
        digits_text(n / 10).push(digit_char((n % 10) as int))
    }
}

/// The usual decimal writing of `v`: its digits, after a `-` sign when negative.
pub open spec fn decimal_text(v: int) -> Seq<char> {
    if v < 0 {
        seq!['-'] + digits_text((-v) as nat)
    } else {
        digits_text(v as nat)
    }
}

proof fn lemma_digits_text(n: nat)
    ensures
        digits_text(n).len() > 0,
        all_decimal_digits(digits_text(n)),
        digits_value(digits_text(n)) == n,
        digits_text(n)[0] != '+',
        digits_text(n)[0] != '-',
    decreases n,
{
    let s = digits_text(n);
    if n < 10 {
        assert(s.drop_last() =~= Seq::<char>::empty());
        assert(digits_value(Seq::<char>::empty()) == 0);
        assert((s.last() as int) - ('0' as int) == n);
        assert(digits_value(s) == 10 * digits_value(s.drop_last()) + ((s.last() as int) - ('0' as int)));
    } else {
        lemma_digits_text(n / 10);
        let d = (n % 10) as int;
        assert(s.drop_last() =~= digits_text(n / 10));
        assert(s.last() == digit_char(d));
        assert((digit_char(d) as int) - ('0' as int) == d);
        assert(digits_value(s) == 10 * digits_value(s.drop_last()) + ((s.last() as int) - ('0' as int)));
        assert(n == 10 * (n / 10) + n % 10);
        assert(s[0] == digits_text(n / 10)[0]);
        assert forall|i: int| 0 <= i < s.len() implies is_decimal_digit(#[trigger] s[i]) by {
            if i < s.len() - 1 {
                assert(s[i] == digits_text(n / 10)[i]);
            }
        }
    }
}

/// Every value of an integer type, written the usual way in decimal, is
/// accepted as an argument for an input of that type, as that very value.
pub proof fn lemma_decimal_text_accepted(ty: Type, v: int)
    requires
        is_integer_type(ty),
        type_min(ty) <= v <= type_max(ty),
    ensures
        parsed_input(ty, decimal_text(v)) == Some(v),
        input_error(ty, decimal_text(v)) is None,
{
    let s = decimal_text(v);
    if v < 0 {
        let n = (-v) as nat;
        lemma_digits_text(n);
        assert(s.drop_first() =~= digits_text(n));
        assert(s[0] == '-');
        assert(is_signed(ty));
    } else {
        lemma_digits_text(v as nat);
    }
}

proof fn lemma_le_bytes_of_le_value(s: Seq<u8>)
    ensures
        le_bytes(le_value(s), s.len()) == s,
        le_value(s) < pow256(s.len()),
    decreases s.len(),
{
    if s.len() > 0 {
        let rest = s.drop_first();
        lemma_le_bytes_of_le_value(rest);
        let u = le_value(s);
        let r = le_value(rest);
        let b = s[0] as nat;
        assert(u == b + 256 * r);
        assert((b + 256 * r) % 256 == b && (b + 256 * r) / 256 == r) by (nonlinear_arith)
            requires
                b < 256,
        ;
        assert(b + 256 * r < 256 * pow256(rest.len())) by (nonlinear_arith)
            requires
                b < 256,
                r < pow256(rest.len()),
        ;
        assert(le_bytes(u, s.len()) =~= s);
    }
}

/// A string output reads back the whole stored address: when the leading
/// bytes of a string variable are the memory representation of the address
/// `a`, what reading the variable gives is `a`, and nothing else.
pub proof fn lemma_string_output_reads_whole_address(
    a: usize,
    bytes: Seq<u8>,
    result: Result<OutputValue, OutputError>,
)
    requires
        bytes.len() >= type_size(Type::String),
        bytes.take(vstd::layout::size_of::<usize>() as int) == in_native_order(
            le_bytes(a as nat, vstd::layout::size_of::<usize>()),
        ),
        decodes(Type::String, bytes, result),
    ensures
        result == Ok::<OutputValue, OutputError>(OutputValue::CString(a)),
{
    broadcast use vstd::layout::layout_of_primitives;

    let n = vstd::layout::size_of::<usize>();
    let le = le_bytes(a as nat, n);
    lemma_le_bytes_len(a as nat, n);
    lemma_native_order_involutive(le);
    reveal_with_fuel(pow256, 9);
    assert((a as nat) < pow256(n));
    lemma_le_value_of_le_bytes(a as nat, n);
}

} // verus!
