//! The text command language of the teleoperation link.
//!
//! A command line is split into whitespace-separated tokens; the first token
//! names the command, case-insensitively.  Numbers are plain decimal; a servo
//! angle may carry a fractional part and is rounded half away from zero.

use vstd::prelude::*;

use crate::text::{
    parse_u64, spec_all_digits, spec_dec_value, spec_is_digit, spec_parse_u64, spec_split,
    split_runs,
};
use vstd::string::StringSliceAdditionalSpecFns;

verus! {

/// The servos of the arm, in wire order.
#[derive(Clone, Copy, PartialEq, Eq, Structural, Debug)]
pub enum ServoId {
    Base,
    Shoulder,
    Elbow,
    Wrist,
    Hand,
}

impl ServoId {
    /// The servo a numeric identifier names: zero through four, in
    /// declaration order.
    pub open spec fn spec_from_i32(x: i32) -> Option<ServoId> {
        if x == 0 {
            Some(ServoId::Base)
        } else if x == 1 {
            Some(ServoId::Shoulder)
        } else if x == 2 {
            Some(ServoId::Elbow)
        } else if x == 3 {
            Some(ServoId::Wrist)
        } else if x == 4 {
            Some(ServoId::Hand)
        } else {
            None
        }
    }

    /// The servo a machine-word identifier names.
    pub open spec fn spec_from_isize(x: isize) -> Option<ServoId> {
        if 0 <= x <= 4 {
            Self::spec_from_i32(x as i32)
        } else {
            None
        }
    }

    /// Returns the servo a machine-word identifier names, if any.
    pub fn from_isize(x: isize) -> (r: Option<ServoId>)
        ensures
            r == Self::spec_from_isize(x),
    {
        if x == 0 {
            Some(ServoId::Base)
        } else if x == 1 {
            Some(ServoId::Shoulder)
        } else if x == 2 {
            Some(ServoId::Elbow)
        } else if x == 3 {
            Some(ServoId::Wrist)
        } else if x == 4 {
            Some(ServoId::Hand)
        } else {
            None
        }
    }

    /// Returns the servo a numeric identifier names, if any.
    pub fn from_i32(x: i32) -> (r: Option<ServoId>)
        ensures
            r == Self::spec_from_i32(x),
    {
        if x == 0 {
            Some(ServoId::Base)
        } else if x == 1 {
            Some(ServoId::Shoulder)
        } else if x == 2 {
            Some(ServoId::Elbow)
        } else if x == 3 {
            Some(ServoId::Wrist)
        } else if x == 4 {
            Some(ServoId::Hand)
        } else {
            None
        }
    }
}

/// A parsed console command.
#[derive(Clone, Debug)]
pub enum Command {
    Help,
    Quit,
    /// Turn the indicator on or off.
    Led(bool),
    /// Move one servo to an angle between zero and one hundred eighty degrees.
    Servo(ServoId, u16),
    /// Run the commands of the named script file.
    Script(String),
}

/// ASCII lowercasing of one byte.
pub open spec fn spec_lower(b: u8) -> u8 {
    if 65 <= b <= 90 {
        (b + 32) as u8
    } else {
        b
    }
}

/// The token spells the keyword, case-insensitively.
pub open spec fn spec_lower_eq(t: Seq<u8>, kw: Seq<u8>) -> bool {
    t.len() == kw.len() && forall|i: int| 0 <= i < t.len() ==> spec_lower(#[trigger] t[i]) == kw[i]
}

pub open spec fn kw_help() -> Seq<u8> {
    seq![104u8, 101u8, 108u8, 112u8]
}

pub open spec fn kw_quit() -> Seq<u8> {
    seq![113u8, 117u8, 105u8, 116u8]
}

pub open spec fn kw_led() -> Seq<u8> {
    seq![108u8, 101u8, 100u8]
}

pub open spec fn kw_servo() -> Seq<u8> {
    seq![115u8, 101u8, 114u8, 118u8, 111u8]
}

pub open spec fn kw_script() -> Seq<u8> {
    seq![115u8, 99u8, 114u8, 105u8, 112u8, 116u8]
}

pub open spec fn kw_on() -> Seq<u8> {
    seq![111u8, 110u8]
}

pub open spec fn kw_off() -> Seq<u8> {
    seq![111u8, 102u8, 102u8]
}

fn lower_byte(b: u8) -> (r: u8)
    ensures
        r == spec_lower(b),
{
    if 65 <= b && b <= 90 {
        b + 32
    } else {
        b
    }
}

fn matches_kw(t: &Vec<u8>, kw: &Vec<u8>) -> (r: bool)
    ensures
        r == spec_lower_eq(t@, kw@),
{
    if t.len() != kw.len() {
        return false;
    }
    let mut i: usize = 0;
    while i < t.len()
        invariant
            0 <= i <= t@.len(),
            t@.len() == kw@.len(),
            forall|k: int| 0 <= k < i ==> spec_lower(#[trigger] t@[k]) == kw@[k],
        decreases t@.len() - i,
    {
        if lower_byte(t[i]) != kw[i] {
            return false;
        }
        i = i + 1;
    }
    true
}

fn kw_help_vec() -> (v: Vec<u8>)
    ensures
        v@ == kw_help(),
{
    let mut v: Vec<u8> = Vec::new();
    v.push(104);
    v.push(101);
    v.push(108);
    v.push(112);
    proof {
        assert(v@ =~= kw_help());
    }
    v
}

fn kw_quit_vec() -> (v: Vec<u8>)
    ensures
        v@ == kw_quit(),
{
    let mut v: Vec<u8> = Vec::new();
    v.push(113);
    v.push(117);
    v.push(105);
    v.push(116);
    proof {
        assert(v@ =~= kw_quit());
    }
    v
}

fn kw_led_vec() -> (v: Vec<u8>)
    ensures
        v@ == kw_led(),
{
    let mut v: Vec<u8> = Vec::new();
    v.push(108);
    v.push(101);
    v.push(100);
    proof {
        assert(v@ =~= kw_led());
    }
    v
}

fn kw_servo_vec() -> (v: Vec<u8>)
    ensures
        v@ == kw_servo(),
{
    let mut v: Vec<u8> = Vec::new();
    v.push(115);
    v.push(101);
    v.push(114);
    v.push(118);
    v.push(111);
    proof {
        assert(v@ =~= kw_servo());
    }
    v
}

fn kw_script_vec() -> (v: Vec<u8>)
    ensures
        v@ == kw_script(),
{
    let mut v: Vec<u8> = Vec::new();
    v.push(115);
    v.push(99);
    v.push(114);
    v.push(105);
    v.push(112);
    v.push(116);
    proof {
        assert(v@ =~= kw_script());
    }
    v
}

fn kw_on_vec() -> (v: Vec<u8>)
    ensures
        v@ == kw_on(),
{
    let mut v: Vec<u8> = Vec::new();
    v.push(111);
    v.push(110);
    proof {
        assert(v@ =~= kw_on());
    }
    v
}

fn kw_off_vec() -> (v: Vec<u8>)
    ensures
        v@ == kw_off(),
{
    let mut v: Vec<u8> = Vec::new();
    v.push(111);
    v.push(102);
    v.push(102);
    proof {
        assert(v@ =~= kw_off());
    }
    v
}

/// The signed decimal number a token denotes within the 32-bit range, if any.
/// One leading plus or minus sign is accepted.
pub open spec fn spec_parse_i32(t: Seq<u8>) -> Option<i32> {
    let neg = t.len() > 0 && t[0] == 45;
    let d = if t.len() > 0 && (t[0] == 43 || t[0] == 45) {
        t.drop_first()
    } else {
        t
    };
    if d.len() > 0 && spec_all_digits(d) && spec_dec_value(d) <= (if neg {
        0x80000000int
    } else {
        0x7FFFFFFFint
    }) {
        if neg {
            Some((-spec_dec_value(d)) as i32)
        } else {
            Some(spec_dec_value(d) as i32)
        }
    } else {
        None
    }
}

fn copy_from(t: &Vec<u8>, start: usize) -> (r: Vec<u8>)
    requires
        start <= t@.len(),
    ensures
        r@ == t@.skip(start as int),
{
    let mut r: Vec<u8> = Vec::new();
    let mut i: usize = start;
    while i < t.len()
        invariant
            start <= i <= t@.len(),
            r@ =~= t@.subrange(start as int, i as int),
        decreases t@.len() - i,
    {
        r.push(t[i]);
        proof {
            assert(r@ =~= t@.subrange(start as int, i as int + 1));
        }
        i = i + 1;
    }
    proof {
        assert(r@ =~= t@.skip(start as int));
    }
    r
}

/// Reads a token as a signed 32-bit decimal number.
fn parse_i32(t: &Vec<u8>) -> (r: Option<i32>)
    ensures
        r == spec_parse_i32(t@),
{
    let signed = t.len() > 0 && (t[0] == 43 || t[0] == 45);
    let neg = t.len() > 0 && t[0] == 45;
    let d = if signed {
        copy_from(t, 1)
    } else {
        copy_from(t, 0)
    };
    proof {
        if signed {
            assert(t@.drop_first() =~= t@.skip(1));
        } else {
            assert(t@.skip(0) =~= t@);
        }
    }
    let bound: u64 = if neg {
        0x80000000
    } else {
        0x7FFFFFFF
    };
    match parse_u64(d.as_slice()) {
        Option::Some(v) => {
            proof {
                crate::text::lemma_dec_value_nonneg(d@);
                assert(v == spec_dec_value(d@));
            }
            if v > bound {
                proof {
                    assert(spec_dec_value(d@) > bound);
                }
                None
            } else if neg {
                Some((-(v as i64)) as i32)
            } else {
                Some(v as i32)
            }
        },
        Option::None => {
            proof {
                if d@.len() > 0 && spec_all_digits(d@) {
                    assert(spec_dec_value(d@) > u64::MAX);
                }
            }
            None
        },
    }
}

/// Position of the first dot in a token, or its length.
pub open spec fn spec_first_dot(t: Seq<u8>) -> int
    decreases t.len(),
{
    if t.len() == 0 {
        0
    } else if t[0] == 46 {
        0
    } else {
        1 + spec_first_dot(t.drop_first())
    }
}

proof fn lemma_first_dot_exact(t: Seq<u8>, n: int)
    requires
        0 <= n <= t.len(),
        forall|i: int| 0 <= i < n ==> t[i] != 46,
        n < t.len() ==> t[n] == 46,
    ensures
        spec_first_dot(t) == n,
    decreases t.len(),
{
    if n > 0 {
        assert forall|i: int| 0 <= i < n - 1 implies t.drop_first()[i] != 46 by {
            assert(t.drop_first()[i] == t[i + 1]);
        }
        if n - 1 < t.drop_first().len() {
            assert(t.drop_first()[n - 1] == t[n]);
        }
        lemma_first_dot_exact(t.drop_first(), n - 1);
    }
}

/// The digits before the dot of an unsigned decimal token.
pub open spec fn spec_int_part(u: Seq<u8>) -> Seq<u8> {
    u.take(spec_first_dot(u))
}

/// The digits after the dot of an unsigned decimal token.
pub open spec fn spec_frac_part(u: Seq<u8>) -> Seq<u8> {
    if spec_first_dot(u) < u.len() {
        u.skip(spec_first_dot(u) + 1)
    } else {
        Seq::empty()
    }
}

/// The unsigned part of a token, past one optional sign.
pub open spec fn spec_unsigned(t: Seq<u8>) -> Seq<u8> {
    if t.len() > 0 && (t[0] == 43 || t[0] == 45) {
        t.drop_first()
    } else {
        t
    }
}

pub open spec fn spec_negative(t: Seq<u8>) -> bool {
    t.len() > 0 && t[0] == 45
}

/// The token is a plain decimal number: an optional sign, digits, at most one
/// dot, and at least one digit overall.
pub open spec fn spec_angle_numeric(t: Seq<u8>) -> bool {
    let u = spec_unsigned(t);
    let ip = spec_int_part(u);
    let fp = spec_frac_part(u);
    &&& spec_all_digits(ip)
    &&& spec_all_digits(fp)
    &&& ip.len() + fp.len() > 0
    &&& spec_first_dot(fp) == fp.len()
}

pub open spec fn spec_all_zeros(d: Seq<u8>) -> bool {
    forall|i: int| 0 <= i < d.len() ==> #[trigger] d[i] == 48
}

/// The number the token denotes lies in `[0, 180]`.
pub open spec fn spec_angle_in_range(t: Seq<u8>) -> bool {
    let u = spec_unsigned(t);
    let ip = spec_int_part(u);
    let fp = spec_frac_part(u);
    if spec_negative(t) {
        spec_dec_value(ip) == 0 && spec_all_zeros(fp)
    } else {
        spec_dec_value(ip) < 180 || (spec_dec_value(ip) == 180 && spec_all_zeros(fp))
    }
}

/// The angle the token denotes, rounded half away from zero.
pub open spec fn spec_angle_value(t: Seq<u8>) -> u16 {
    let u = spec_unsigned(t);
    let ip = spec_int_part(u);
    let fp = spec_frac_part(u);
    if spec_negative(t) {
        0
    } else {
        (spec_dec_value(ip) + (if fp.len() > 0 && fp[0] >= 53 {
            1int
        } else {
            0int
        })) as u16
    }
}

/// How a token reads as an angle.
#[derive(PartialEq, Eq, Structural)]
pub enum AngleParse {
    /// Not a plain decimal number.
    NotNumeric,
    /// A number outside `[0, 180]`.
    OutOfRange,
    /// An angle, rounded half away from zero.
    Value(u16),
}

pub open spec fn spec_angle_parse(t: Seq<u8>) -> AngleParse {
    if !spec_angle_numeric(t) {
        AngleParse::NotNumeric
    } else if !spec_angle_in_range(t) {
        AngleParse::OutOfRange
    } else {
        AngleParse::Value(spec_angle_value(t))
    }
}

fn all_digits(d: &Vec<u8>) -> (r: bool)
    ensures
        r == spec_all_digits(d@),
{
    let mut i: usize = 0;
    while i < d.len()
        invariant
            0 <= i <= d@.len(),
            forall|k: int| 0 <= k < i ==> spec_is_digit(#[trigger] d@[k]),
        decreases d@.len() - i,
    {
        if d[i] < 48 || d[i] > 57 {
            return false;
        }
        i = i + 1;
    }
    true
}

fn all_zeros(d: &Vec<u8>) -> (r: bool)
    ensures
        r == spec_all_zeros(d@),
{
    let mut i: usize = 0;
    while i < d.len()
        invariant
            0 <= i <= d@.len(),
            forall|k: int| 0 <= k < i ==> #[trigger] d@[k] == 48,
        decreases d@.len() - i,
    {
        if d[i] != 48 {
            return false;
        }
        i = i + 1;
    }
    true
}

fn subrange_vec(t: &Vec<u8>, a: usize, b: usize) -> (r: Vec<u8>)
    requires
        a <= b <= t@.len(),
    ensures
        r@ == t@.subrange(a as int, b as int),
{
    let mut r: Vec<u8> = Vec::new();
    let mut i: usize = a;
    while i < b
        invariant
            a <= i <= b <= t@.len(),
            r@ =~= t@.subrange(a as int, i as int),
        decreases b - i,
    {
        r.push(t[i]);
        proof {
            assert(r@ =~= t@.subrange(a as int, i as int + 1));
        }
        i = i + 1;
    }
    r
}

/// Reads a token as a servo angle.
fn parse_angle(t: &Vec<u8>) -> (r: AngleParse)
    ensures
        r == spec_angle_parse(t@),
{
    let signed = t.len() > 0 && (t[0] == 43 || t[0] == 45);
    let neg = t.len() > 0 && t[0] == 45;
    let u = if signed {
        copy_from(t, 1)
    } else {
        copy_from(t, 0)
    };
    proof {
        if signed {
            assert(t@.drop_first() =~= t@.skip(1));
        } else {
            assert(t@.skip(0) =~= t@);
        }
        assert(u@ == spec_unsigned(t@));
    }
    // Locate the dot and cut the token apart.
    let mut d: usize = 0;
    while d < u.len() && u[d] != 46
        invariant
            0 <= d <= u@.len(),
            forall|k: int| 0 <= k < d ==> u@[k] != 46,
        decreases u@.len() - d,
    {
        d = d + 1;
    }
    proof {
        lemma_first_dot_exact(u@, d as int);
    }
    let ip = subrange_vec(&u, 0, d);
    let fp = if d < u.len() {
        subrange_vec(&u, d + 1, u.len())
    } else {
        Vec::new()
    };
    proof {
        assert(ip@ =~= spec_int_part(u@));
        if d < u.len() {
            assert(fp@ =~= spec_frac_part(u@));
        } else {
            assert(fp@ =~= spec_frac_part(u@));
        }
    }
    // Shape check: digits around at most one dot, at least one digit.
    let mut fd: usize = 0;
    while fd < fp.len() && fp[fd] != 46
        invariant
            0 <= fd <= fp@.len(),
            forall|k: int| 0 <= k < fd ==> fp@[k] != 46,
        decreases fp@.len() - fd,
    {
        fd = fd + 1;
    }
    proof {
        lemma_first_dot_exact(fp@, fd as int);
    }
    if !(all_digits(&ip) && all_digits(&fp) && ip.len() + fp.len() > 0 && fd == fp.len()) {
        return AngleParse::NotNumeric;
    }
    // Range check and rounding.
    let ipv: Option<u64> = if ip.len() == 0 {
        Some(0)
    } else {
        parse_u64(ip.as_slice())
    };
    proof {
        crate::text::lemma_dec_value_nonneg(ip@);
        match ipv {
            Option::Some(v) => {
                assert(v == spec_dec_value(ip@));
            },
            Option::None => {
                assert(spec_dec_value(ip@) > u64::MAX);
            },
        }
    }
    if neg {
        let zero = match ipv {
            Option::Some(v) => v == 0,
            Option::None => false,
        };
        if zero && all_zeros(&fp) {
            AngleParse::Value(0)
        } else {
            AngleParse::OutOfRange
        }
    } else {
        match ipv {
            Option::Some(v) => {
                if v < 180 || (v == 180 && all_zeros(&fp)) {
                    let carry: u16 = if fp.len() > 0 && fp[0] >= 53 {
                        1
                    } else {
                        0
                    };
                    AngleParse::Value(v as u16 + carry)
                } else {
                    AngleParse::OutOfRange
                }
            },
            Option::None => AngleParse::OutOfRange,
        }
    }
}

/// The reading of an `led` line: the keyword, then exactly `on` or `off`.
pub open spec fn spec_led(bytes: Seq<u8>) -> Result<Command, Seq<char>> {
    let toks = spec_split(bytes, false);
    if toks.len() == 0 {
        Err("Line is empty"@)
    } else if !spec_lower_eq(toks[0], kw_led()) {
        Err("Line does not start with LED"@)
    } else if toks.len() != 2 {
        Err("USAGE for LED command: LED <on/off>"@)
    } else if spec_lower_eq(toks[1], kw_on()) {
        Ok(Command::Led(true))
    } else if spec_lower_eq(toks[1], kw_off()) {
        Ok(Command::Led(false))
    } else {
        Err("USAGE for LED command: LED <on/off>"@)
    }
}

/// The reading of a `servo` line: the keyword, a numeric servo identifier,
/// and an angle between zero and one hundred eighty degrees.
pub open spec fn spec_servo(bytes: Seq<u8>) -> Result<Command, Seq<char>> {
    let toks = spec_split(bytes, false);
    if toks.len() == 0 {
        Err("Line is empty"@)
    } else if !spec_lower_eq(toks[0], kw_servo()) {
        Err("Line does not start with servo"@)
    } else if toks.len() != 3 {
        Err("USAGE for Servo command: servo <id> <angle>"@)
    } else {
        match spec_parse_i32(toks[1]) {
            Option::None => Err(
                "USAGE for Servo command: servo <id - must be numeric> <angle - between 0 and 180>"@,
            ),
            Option::Some(x) => match ServoId::spec_from_i32(x) {
                Option::None => Err("Servo id is invalid."@),
                Option::Some(id) => match spec_angle_parse(toks[2]) {
                    AngleParse::NotNumeric => Err("Need a numeric value for angle"@),
                    AngleParse::OutOfRange => Err("Angle must be in range [0, 180]"@),
                    AngleParse::Value(a) => Ok(Command::Servo(id, a)),
                },
            },
        }
    }
}

/// The reading of a `script` line: the keyword and the path token, returned
/// as bytes.
pub open spec fn spec_script(bytes: Seq<u8>) -> Result<Seq<u8>, Seq<char>> {
    let toks = spec_split(bytes, false);
    if toks.len() == 0 {
        Err("Line is empty"@)
    } else if !spec_lower_eq(toks[0], kw_script()) {
        Err("Line does not start with script"@)
    } else if toks.len() != 2 {
        Err("USAGE: script <path-to-script>"@)
    } else {
        Ok(toks[1])
    }
}

/// The result `r` reads the line as [`spec_led`] says.
pub open spec fn led_result_ok(r: Result<Command, &'static str>, bytes: Seq<u8>) -> bool {
    match r {
        Result::Ok(c) => spec_led(bytes) == Result::<Command, Seq<char>>::Ok(c),
        Result::Err(m) => spec_led(bytes) == Result::<Command, Seq<char>>::Err(m@),
    }
}

/// The result `r` reads the line as [`spec_servo`] says.
pub open spec fn servo_result_ok(r: Result<Command, &'static str>, bytes: Seq<u8>) -> bool {
    match r {
        Result::Ok(c) => spec_servo(bytes) == Result::<Command, Seq<char>>::Ok(c),
        Result::Err(m) => spec_servo(bytes) == Result::<Command, Seq<char>>::Err(m@),
    }
}

/// The result `r` reads the line as [`spec_script`] says: on success it
/// carries the path token, decoded from its bytes; a path that is not valid
/// text is refused like a malformed line.
pub open spec fn script_result_ok(r: Result<Command, &'static str>, bytes: Seq<u8>) -> bool {
    match r {
        Result::Ok(c) => match c {
            Command::Script(p) => spec_script(bytes) == Result::<Seq<u8>, Seq<char>>::Ok(
                vstd::utf8::encode_utf8(p@),
            ),
            _ => false,
        },
        Result::Err(m) => spec_script(bytes) == Result::<Seq<u8>, Seq<char>>::Err(m@) || (
        spec_script(bytes) matches Result::Ok(tok) && !vstd::utf8::valid_utf8(tok) && m@
            == "USAGE: script <path-to-script>"@),
    }
}

/// Relies on String::from_utf8: it succeeds exactly on valid UTF-8 and the
/// resulting string encodes back to those very bytes.
#[verifier::external_body]
fn bytes_to_string(v: Vec<u8>) -> (r: Option<String>)
    ensures
        r is Some <==> vstd::utf8::valid_utf8(v@),
        r matches Some(s) ==> vstd::utf8::encode_utf8(s@) == v@,
{
    String::from_utf8(v).ok()
}

impl Command {
    /// Reads a console line as a command: `help`, `quit`, or one of the
    /// `led`, `servo` and `script` forms, whose own readers say the rest.
    /// Anything else is refused with a message.
    pub fn new_from_string(line: &str) -> (r: Result<Command, &'static str>)
        ensures
            ({
                let toks = spec_split(line.spec_bytes(), false);
                if toks.len() == 0 {
                    r matches Result::Err(m) && m@ == "Line is empty"@
                } else if spec_lower_eq(toks[0], kw_help()) {
                    r matches Result::Ok(Command::Help)
                } else if spec_lower_eq(toks[0], kw_quit()) {
                    r matches Result::Ok(Command::Quit)
                } else if spec_lower_eq(toks[0], kw_led()) {
                    led_result_ok(r, line.spec_bytes())
                } else if spec_lower_eq(toks[0], kw_servo()) {
                    servo_result_ok(r, line.spec_bytes())
                } else if spec_lower_eq(toks[0], kw_script()) {
                    script_result_ok(r, line.spec_bytes())
                } else {
                    r matches Result::Err(m) && m@ == "Malformed command"@
                }
            }),
    {
        let toks = split_runs(line.as_bytes(), false);
        if toks.len() == 0 {
            return Err("Line is empty");
        }
        proof {
            assert(toks@.map_values(|t: Vec<u8>| t@)[0] == toks@[0]@);
        }
        if matches_kw(&toks[0], &kw_help_vec()) {
            Ok(Command::Help)
        } else if matches_kw(&toks[0], &kw_quit_vec()) {
            Ok(Command::Quit)
        } else if matches_kw(&toks[0], &kw_led_vec()) {
            Command::led_from_string(line)
        } else if matches_kw(&toks[0], &kw_servo_vec()) {
            Command::servo_from_string(line)
        } else if matches_kw(&toks[0], &kw_script_vec()) {
            Command::script_from_string(line)
        } else {
            Err("Malformed command")
        }
    }

    /// Reads a console line as an `led` command, as [`spec_led`] says.
    pub fn led_from_string(line: &str) -> (r: Result<Command, &'static str>)
        ensures
            led_result_ok(r, line.spec_bytes()),
    {
        let toks = split_runs(line.as_bytes(), false);
        if toks.len() == 0 {
            return Err("Line is empty");
        }
        proof {
            assert(toks@.map_values(|t: Vec<u8>| t@)[0] == toks@[0]@);
        }
        if !matches_kw(&toks[0], &kw_led_vec()) {
            return Err("Line does not start with LED");
        }
        if toks.len() != 2 {
            return Err("USAGE for LED command: LED <on/off>");
        }
        proof {
            assert(toks@.map_values(|t: Vec<u8>| t@)[1] == toks@[1]@);
        }
        if matches_kw(&toks[1], &kw_on_vec()) {
            Ok(Command::Led(true))
        } else if matches_kw(&toks[1], &kw_off_vec()) {
            Ok(Command::Led(false))
        } else {
            Err("USAGE for LED command: LED <on/off>")
        }
    }

    /// Reads a console line as a `servo` command, as [`spec_servo`] says.
    pub fn servo_from_string(line: &str) -> (r: Result<Command, &'static str>)
        ensures
            servo_result_ok(r, line.spec_bytes()),
    {
        let toks = split_runs(line.as_bytes(), false);
        if toks.len() == 0 {
            return Err("Line is empty");
        }
        proof {
            assert(toks@.map_values(|t: Vec<u8>| t@)[0] == toks@[0]@);
        }
        if !matches_kw(&toks[0], &kw_servo_vec()) {
            return Err("Line does not start with servo");
        }
        if toks.len() != 3 {
            return Err("USAGE for Servo command: servo <id> <angle>");
        }
        proof {
            assert(toks@.map_values(|t: Vec<u8>| t@)[1] == toks@[1]@);
            assert(toks@.map_values(|t: Vec<u8>| t@)[2] == toks@[2]@);
        }
        let id = match parse_i32(&toks[1]) {
            Option::Some(x) => match ServoId::from_i32(x) {
                Option::Some(id) => id,
                Option::None => {
                    return Err("Servo id is invalid.");
                },
            },
            Option::None => {
                return Err(
                    "USAGE for Servo command: servo <id - must be numeric> <angle - between 0 and 180>",
                );
            },
        };
        match parse_angle(&toks[2]) {
            AngleParse::NotNumeric => Err("Need a numeric value for angle"),
            AngleParse::OutOfRange => Err("Angle must be in range [0, 180]"),
            AngleParse::Value(a) => Ok(Command::Servo(id, a)),
        }
    }

    /// Reads a console line as a `script` command, as [`spec_script`] says.
    /// Whether the named file exists is the caller's business.
    pub fn script_from_string(line: &str) -> (r: Result<Command, &'static str>)
        ensures
            script_result_ok(r, line.spec_bytes()),
    {
        let toks = split_runs(line.as_bytes(), false);
        if toks.len() == 0 {
            return Err("Line is empty");
        }
        proof {
            assert(toks@.map_values(|t: Vec<u8>| t@)[0] == toks@[0]@);
        }
        if !matches_kw(&toks[0], &kw_script_vec()) {
            return Err("Line does not start with script");
        }
        if toks.len() != 2 {
            return Err("USAGE: script <path-to-script>");
        }
        proof {
            assert(toks@.map_values(|t: Vec<u8>| t@)[1] == toks@[1]@);
        }
        let tok = clone_bytes(&toks[1]);
        match bytes_to_string(tok) {
            Option::Some(p) => Ok(Command::Script(p)),
            Option::None => Err("USAGE: script <path-to-script>"),
        }
    }
}

fn clone_bytes(t: &Vec<u8>) -> (r: Vec<u8>)
    ensures
        r@ == t@,
{
    let mut r: Vec<u8> = Vec::new();
    let mut i: usize = 0;
    while i < t.len()
        invariant
            0 <= i <= t@.len(),
            r@ =~= t@.take(i as int),
        decreases t@.len() - i,
    {
        r.push(t[i]);
        proof {
            assert(r@ =~= t@.take(i as int + 1));
        }
        i = i + 1;
    }
    proof {
        assert(r@ =~= t@);
    }
    r
}

} // verus!
