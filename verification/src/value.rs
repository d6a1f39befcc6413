use vstd::prelude::*;

verus! {

/// A time interval with millisecond precision, the unit in which a
/// script variable's refresh period is stored.
#[derive(Clone, Copy, Debug, PartialEq, Eq, Structural)]
pub struct Interval {
    pub millis: u64,
}

impl Interval {
    pub fn from_millis(millis: u64) -> (r: Interval)
        ensures
            r.millis == millis,
    {
        Interval { millis }
    }

    pub fn from_secs(secs: u64) -> (r: Interval)
        requires
            secs * 1000 <= u64::MAX,
        ensures
            r.millis == secs * 1000,
    {
        Interval { millis: secs * 1000 }
    }
}

/// Identifier of a reactive variable; equality is by the underlying text.
#[derive(Debug, Hash, PartialEq, Eq)]
pub struct VarName(pub String);

impl View for VarName {
    type V = Seq<char>;

    open spec fn view(&self) -> Seq<char> {
        self.0@
    }
}

impl Clone for VarName {
    fn clone(&self) -> (r: Self)
        ensures
            r == *self,
    {
        VarName(self.0.clone())
    }
}

impl VarName {
    pub fn new(s: String) -> (r: VarName)
        ensures
            r@ == s@,
    {
        VarName(s)
    }

    pub fn as_str(&self) -> (r: &str)
        ensures
            r@ == self@,
    {
        self.0.as_str()
    }
}

/// Identifier of a window; equality is by the underlying text.
#[derive(Debug, Hash, PartialEq, Eq)]
pub struct WindowName(pub String);

impl View for WindowName {
    type V = Seq<char>;

    open spec fn view(&self) -> Seq<char> {
        self.0@
    }
}

impl Clone for WindowName {
    fn clone(&self) -> (r: Self)
        ensures
            r == *self,
    {
        WindowName(self.0.clone())
    }
}

impl WindowName {
    pub fn new(s: String) -> (r: WindowName)
        ensures
            r@ == s@,
    {
        WindowName(s)
    }

    pub fn as_str(&self) -> (r: &str)
        ensures
            r@ == self@,
    {
        self.0.as_str()
    }
}

/// A typed literal value; this model keeps the raw text, which is how
/// the runtime receives it.
#[derive(Debug, Hash, PartialEq, Eq)]
pub struct PrimitiveValue(pub String);

impl View for PrimitiveValue {
    type V = Seq<char>;

    open spec fn view(&self) -> Seq<char> {
        self.0@
    }
}

impl Clone for PrimitiveValue {
    fn clone(&self) -> (r: Self)
        ensures
            r == *self,
    {
        PrimitiveValue(self.0.clone())
    }
}

impl PrimitiveValue {
    /// Parse raw text into a value; in this model the text is kept as is.
    pub fn parse_string(s: &str) -> (r: PrimitiveValue)
        ensures
            r@ == s@,
    {
        PrimitiveValue(s.to_owned())
    }

    pub fn from_string(s: String) -> (r: PrimitiveValue)
        ensures
            r@ == s@,
    {
        PrimitiveValue(s)
    }

    pub fn as_str(&self) -> (r: &str)
        ensures
            r@ == self@,
    {
        self.0.as_str()
    }
}

pub open spec fn is_dec_digit(c: char) -> bool {
    48 <= c as u32 <= 57
}

pub open spec fn dec_digits_ok(s: Seq<char>) -> bool {
    s.len() > 0 && forall|i: int| 0 <= i < s.len() ==> is_dec_digit(#[trigger] s[i])
}

/// Numeric value of a sequence of decimal digits, most significant first.
pub open spec fn dec_val(s: Seq<char>) -> int
    decreases s.len(),
{
    if s.len() == 0 {
        0
    } else {
        dec_val(s.drop_last()) * 10 + (s.last() as u32 - 48)
    }
}

proof fn lemma_dec_val_nonneg(s: Seq<char>)
    requires
        forall|i: int| 0 <= i < s.len() ==> is_dec_digit(#[trigger] s[i]),
    ensures
        dec_val(s) >= 0,
    decreases s.len(),
{
    if s.len() > 0 {
        lemma_dec_val_nonneg(s.drop_last());
        assert(dec_val(s.drop_last()) * 10 >= 0) by (nonlinear_arith)
            requires
                dec_val(s.drop_last()) >= 0,
        ;
    }
}

proof fn lemma_dec_val_extend_exceeds(s: Seq<char>, k: int, bound: int)
    requires
        forall|i: int| 0 <= i < s.len() ==> is_dec_digit(#[trigger] s[i]),
        0 <= k <= s.len(),
        bound >= 0,
        dec_val(s.take(k)) > bound,
    ensures
        dec_val(s) > bound,
    decreases s.len() - k,
{
    if k < s.len() {
        let t1 = s.take(k + 1);
        assert(t1.drop_last() =~= s.take(k));
        lemma_dec_val_nonneg(s.take(k));
        assert(dec_val(t1) == dec_val(s.take(k)) * 10 + (s[k] as u32 - 48));
        assert(dec_val(s.take(k)) * 10 >= dec_val(s.take(k))) by (nonlinear_arith)
            requires
                dec_val(s.take(k)) >= 0,
        ;
        lemma_dec_val_extend_exceeds(s, k + 1, bound);
    } else {
        assert(s.take(k) =~= s);
    }
}

proof fn lemma_low_codepoint_is_ascii(c: char)
    requires
        (c as u32) < 128,
    ensures
        '\0' <= c <= '\u{7f}',
{
}

/// Parses a string of decimal digits; `None` when the text is empty,
/// holds a non-digit, or denotes a number above `u64::MAX`.
pub fn parse_u64(s: &str) -> (r: Option<u64>)
    ensures
        dec_digits_ok(s@) && dec_val(s@) <= u64::MAX ==> r == Some(dec_val(s@) as u64),
        !(dec_digits_ok(s@) && dec_val(s@) <= u64::MAX) ==> r is None,
{
    broadcast use vstd::string::group_string_axioms;

    if !s.is_ascii() {
        proof {
            if dec_digits_ok(s@) {
                assert forall|i: int| 0 <= i < s@.len() implies '\0' <= #[trigger] s@[i]
                    <= '\u{7f}' by {
                    assert(is_dec_digit(s@[i]));
                    lemma_low_codepoint_is_ascii(s@[i]);
                }
                assert(vstd::utf8::is_ascii_chars(s@));
            }
        }
        return None;
    }
    let bytes = s.as_bytes();
    let n = bytes.len();
    proof {
        assert(bytes@ =~= Seq::new(s@.len(), |i: int| s@[i] as u8));
    }
    if n == 0 {
        return None;
    }
    let mut acc: u64 = 0;
    let mut i: usize = 0;
    while i < n
        invariant
            0 <= i <= n,
            n == s@.len(),
            bytes@ =~= Seq::new(s@.len(), |j: int| s@[j] as u8),
            vstd::utf8::is_ascii_chars(s@),
            forall|j: int| 0 <= j < i ==> is_dec_digit(#[trigger] s@[j]),
            acc == dec_val(s@.take(i as int)),
        decreases n - i,
    {
        let b = bytes[i];
        assert(b == s@[i as int] as u8);
        assert((s@[i as int] as u32) < 128) by {
            assert('\0' <= s@[i as int] <= '\u{7f}');
        }
        if b < 48 || b > 57 {
            assert(!is_dec_digit(s@[i as int]));
            assert(!dec_digits_ok(s@));
            return None;
        }
        assert(is_dec_digit(s@[i as int]));
        let d: u64 = (b - 48) as u64;
        proof {
            assert(s@.take(i + 1).drop_last() =~= s@.take(i as int));
            assert(dec_val(s@.take(i + 1)) == dec_val(s@.take(i as int)) * 10 + (s@[i as int] as u32
                - 48));
        }
        if acc > 1844674407370955161u64 || (acc == 1844674407370955161u64 && d > 5) {
            proof {
                assert(dec_val(s@.take(i + 1)) > u64::MAX) by (nonlinear_arith)
                    requires
                        dec_val(s@.take(i + 1)) == acc * 10 + d,
                        acc > 1844674407370955161u64 || (acc == 1844674407370955161u64 && d > 5),
                        d >= 0,
                ;
                if dec_digits_ok(s@) {
                    lemma_dec_val_extend_exceeds(s@, i + 1, u64::MAX as int);
                }
            }
            return None;
        }
        acc = acc * 10 + d;
        i = i + 1;
    }
    assert(s@.take(n as int) =~= s@);
    Some(acc)
}

/// Signed decimal integer as `str::parse::<i32>` reads it: an optional
/// sign followed by digits, rejected when out of the `i32` range.
pub open spec fn parse_i32_spec(s: Seq<char>) -> Option<i32> {
    let (neg, ds) = if s.len() > 0 && s[0] == '-' {
        (true, s.drop_first())
    } else if s.len() > 0 && s[0] == '+' {
        (false, s.drop_first())
    } else {
        (false, s)
    };
    if !dec_digits_ok(ds) {
        None
    } else {
        let v = if neg {
            -dec_val(ds)
        } else {
            dec_val(ds)
        };
        if v < i32::MIN || v > i32::MAX {
            None
        } else {
            Some(v as i32)
        }
    }
}

pub fn parse_i32(s: &str) -> (r: Option<i32>)
    ensures
        r == parse_i32_spec(s@),
{
    broadcast use vstd::string::group_string_axioms;

    if !s.is_ascii() {
        proof {
            let ds = if s@.len() > 0 && (s@[0] == '-' || s@[0] == '+') {
                s@.drop_first()
            } else {
                s@
            };
            if dec_digits_ok(ds) {
                assert forall|i: int| 0 <= i < s@.len() implies '\0' <= #[trigger] s@[i]
                    <= '\u{7f}' by {
                    if s@.len() > 0 && (s@[0] == '-' || s@[0] == '+') {
                        if i > 0 {
                            assert(s@[i] == ds[i - 1]);
                            assert(is_dec_digit(ds[i - 1]));
                        }
                    } else {
                        assert(is_dec_digit(ds[i]));
                    }
                    lemma_low_codepoint_is_ascii(s@[i]);
                }
            }
        }
        return None;
    }
    let bytes = s.as_bytes();
    let n = bytes.len();
    proof {
        assert(bytes@ =~= Seq::new(s@.len(), |i: int| s@[i] as u8));
    }
    if n == 0 {
        return None;
    }
    let b0 = bytes[0];
    assert(b0 == s@[0] as u8);
    assert((s@[0] as u32) < 128) by {
        assert('\0' <= s@[0] <= '\u{7f}');
    }
    let neg = b0 == 45;
    let has_sign = b0 == 45 || b0 == 43;
    proof {
        assert(neg == (s@[0] == '-'));
        assert((b0 == 43) == (s@[0] == '+'));
    }
    let digits: &str = if has_sign {
        let d = s.substring_ascii(1, n);
        assert(d@ =~= s@.drop_first());
        d
    } else {
        s
    };
    let ghost ds = digits@;
    match parse_u64(digits) {
        None => {
            proof {
                if dec_digits_ok(ds) {
                    lemma_dec_val_nonneg(ds);
                    assert(dec_val(ds) > u64::MAX);
                }
            }
            None
        },
        Some(v) => {
            proof {
                lemma_dec_val_nonneg(ds);
            }
            if neg {
                if v > 2147483648u64 {
                    None
                } else if v == 2147483648u64 {
                    Some(i32::MIN)
                } else {
                    Some(-(v as i32))
                }
            } else {
                if v > 2147483647u64 {
                    None
                } else {
                    Some(v as i32)
                }
            }
        },
    }
}

/// Duration text as the configuration understands it: digits followed by
/// `ms`, `s`, `m` or `h`; the result is in milliseconds.
pub open spec fn parse_duration_spec(s: Seq<char>) -> Option<u64> {
    let n = s.len() as int;
    let (ds, scale) = if n >= 2 && s[n - 2] == 'm' && s[n - 1] == 's' {
        (s.take(n - 2), 1int)
    } else if n >= 1 && s[n - 1] == 's' {
        (s.take(n - 1), 1000int)
    } else if n >= 1 && s[n - 1] == 'm' {
        (s.take(n - 1), 60000int)
    } else if n >= 1 && s[n - 1] == 'h' {
        (s.take(n - 1), 3600000int)
    } else {
        (s, 0int)
    };
    if scale == 0 || !dec_digits_ok(ds) {
        None
    } else if dec_val(ds) * scale > u64::MAX {
        None
    } else {
        Some((dec_val(ds) * scale) as u64)
    }
}

pub fn parse_duration(s: &str) -> (r: Option<Interval>)
    ensures
        r matches Some(iv) ==> parse_duration_spec(s@) == Some(iv.millis),
        r is None ==> parse_duration_spec(s@) is None,
{
    broadcast use vstd::string::group_string_axioms;

    if !s.is_ascii() {
        proof {
            let n = s@.len() as int;
            let ds = if n >= 2 && s@[n - 2] == 'm' && s@[n - 1] == 's' {
                s@.take(n - 2)
            } else if n >= 1 && (s@[n - 1] == 's' || s@[n - 1] == 'm' || s@[n - 1] == 'h') {
                s@.take(n - 1)
            } else {
                s@
            };
            if dec_digits_ok(ds) {
                assert forall|i: int| 0 <= i < s@.len() implies '\0' <= #[trigger] s@[i]
                    <= '\u{7f}' by {
                    if i < ds.len() {
                        assert(ds[i] == s@[i]);
                        assert(is_dec_digit(ds[i]));
                    }
                    lemma_low_codepoint_is_ascii(s@[i]);
                }
            }
        }
        return None;
    }
    let bytes = s.as_bytes();
    let n = bytes.len();
    proof {
        assert(bytes@ =~= Seq::new(s@.len(), |i: int| s@[i] as u8));
        assert forall|i: int| 0 <= i < s@.len() implies (#[trigger] s@[i] as u32) < 128 by {
            assert('\0' <= s@[i] <= '\u{7f}');
        }
    }
    let (digits, scale): (&str, u64) = if n >= 2 && bytes[n - 2] == 109 && bytes[n - 1] == 115 {
        let d = s.substring_ascii(0, n - 2);
        assert(d@ =~= s@.take(n - 2));
        (d, 1)
    } else if n >= 1 && bytes[n - 1] == 115 {
        let d = s.substring_ascii(0, n - 1);
        assert(d@ =~= s@.take(n - 1));
        (d, 1000)
    } else if n >= 1 && bytes[n - 1] == 109 {
        let d = s.substring_ascii(0, n - 1);
        assert(d@ =~= s@.take(n - 1));
        (d, 60000)
    } else if n >= 1 && bytes[n - 1] == 104 {
        let d = s.substring_ascii(0, n - 1);
        assert(d@ =~= s@.take(n - 1));
        (d, 3600000)
    } else {
        return None;
    };
    let ghost ds = digits@;
    match parse_u64(digits) {
        None => {
            proof {
                if dec_digits_ok(ds) {
                    assert(dec_val(ds) > u64::MAX);
                    assert(dec_val(ds) * scale > u64::MAX) by (nonlinear_arith)
                        requires
                            dec_val(ds) > u64::MAX,
                            scale >= 1,
                    ;
                }
            }
            None
        },
        Some(v) => {
            proof {
                lemma_dec_val_nonneg(ds);
            }
            if v > u64::MAX / scale {
                proof {
                    assert(v * scale > u64::MAX) by (nonlinear_arith)
                        requires
                            v > u64::MAX / scale,
                            scale >= 1,
                            v >= 0,
                            u64::MAX / scale == u64::MAX as int / scale as int,
                    ;
                }
                None
            } else {
                proof {
                    assert(v * scale <= u64::MAX) by (nonlinear_arith)
                        requires
                            v <= u64::MAX / scale,
                            scale >= 1,
                            v >= 0,
                            u64::MAX / scale == u64::MAX as int / scale as int,
                    ;
                }
                let ms = v * scale;
                Some(Interval { millis: ms })
            }
        },
    }
}

} // verus!
