//! A small decoder for the binary PPM image format, as far as the font
//! rasterizer needs it: a whitespace-separated header of four tokens
//! (format tag, width, height, maximum sample value) with `#` comments,
//! followed by raw 3-byte RGB samples.

use vstd::prelude::*;

verus! {

/// Failures of the PPM decoder.
#[derive(Clone, Copy, Debug, PartialEq, Eq, Structural)]
pub enum PpmError {
    /// A numeric header token is not an unsigned decimal that fits the
    /// machine word.
    InvalidNumber,
    /// The sample bytes after the header do not form whole 3-byte pixels.
    TruncatedData,
}

/// One RGB sample.
#[derive(Clone, Copy, Debug, PartialEq, Eq, Structural)]
pub struct Pixel {
    pub r: u8,
    pub g: u8,
    pub b: u8,
}

/// The parsing phases of the header scan, in the order the four header
/// tokens are expected.
pub enum ParseState {
    Start,
    FoundFormat,
    FoundWidth,
    FoundHeight,
    FoundMax,
}

impl ParseState {
    /// How many header tokens have been completed in this phase.
    pub open spec fn fields_found(&self) -> int {
        match self {
            ParseState::Start => 0,
            ParseState::FoundFormat => 1,
            ParseState::FoundWidth => 2,
            ParseState::FoundHeight => 3,
            ParseState::FoundMax => 4,
        }
    }
}

/// A decoded image: the four header fields and the pixel samples in row
/// order.
pub struct PPM {
    format: String,
    width: usize,
    height: usize,
    max: usize,
    pixels: Vec<Pixel>,
}

/// The header scan, byte for byte: outside a comment, a newline, space or
/// `#` ends the token being collected (empty tokens are skipped, `#` also
/// opens a comment that runs to the next newline); any other byte extends
/// it. The scan stops right after the fourth token or at the end of the
/// input, and reports the completed tokens together with the number of
/// bytes consumed — everything after them is sample data.
pub open spec fn scan_header(
    v: Seq<u8>,
    i: int,
    fields: Seq<Seq<u8>>,
    buffer: Seq<u8>,
    in_comment: bool,
) -> (Seq<Seq<u8>>, int)
    decreases v.len() - i,
{
    if i < 0 || i >= v.len() {
        (fields, v.len() as int)
    } else {
        let b = v[i];
        if in_comment {
            scan_header(v, i + 1, fields, buffer, b != 10)
        } else if b == 10 || b == 32 || b == 35 {
            let now_comment = b == 35;
            if buffer.len() == 0 {
                scan_header(v, i + 1, fields, buffer, now_comment)
            } else {
                let fields2 = fields.push(buffer);
                if fields2.len() == 4 {
                    (fields2, i + 1)
                } else {
                    scan_header(v, i + 1, fields2, Seq::empty(), now_comment)
                }
            }
        } else {
            scan_header(v, i + 1, fields, buffer.push(b), in_comment)
        }
    }
}

/// The tokens and header length of an input, scanned from the start.
pub open spec fn scanned(v: Seq<u8>) -> (Seq<Seq<u8>>, int) {
    scan_header(v, 0, Seq::empty(), Seq::empty(), false)
}

/// An ASCII decimal digit.
pub open spec fn is_digit(b: u8) -> bool {
    48 <= b <= 57
}

/// Every byte of the token is a decimal digit.
pub open spec fn all_digits(s: Seq<u8>) -> bool {
    forall|i: int| 0 <= i < s.len() ==> is_digit(#[trigger] s[i])
}

/// The value of a digit string read as a decimal numeral.
pub open spec fn digits_value(s: Seq<u8>) -> int
    decreases s.len(),
{
    if s.len() == 0 {
        0
    } else {
        digits_value(s.drop_last()) * 10 + (s.last() - 48)
    }
}

/// The digits of a numeric token: a single leading `+` is allowed and
/// ignored, as in the decimal grammar of the machine integers.
pub open spec fn numeral_of(s: Seq<u8>) -> Seq<u8> {
    if s.len() >= 2 && s[0] == 43 {
        s.subrange(1, s.len() as int)
    } else {
        s
    }
}

/// The token is a well-formed unsigned decimal whose value fits a `usize`.
pub open spec fn token_valid(s: Seq<u8>) -> bool {
    let n = numeral_of(s);
    &&& n.len() > 0
    &&& all_digits(n)
    &&& digits_value(n) <= usize::MAX
}

/// The numeric value of a token.
pub open spec fn token_value(s: Seq<u8>) -> int {
    digits_value(numeral_of(s))
}

/// A decimal numeral never has a negative value.
proof fn lemma_digits_value_nonneg(s: Seq<u8>)
    requires
        all_digits(s),
    ensures
        digits_value(s) >= 0,
    decreases s.len(),
{
    if s.len() > 0 {
        assert(all_digits(s.drop_last())) by {
            assert(forall|i: int|
                0 <= i < s.len() - 1 ==> #[trigger] s.drop_last()[i] == s[i]);
        }
        lemma_digits_value_nonneg(s.drop_last());
    }
}

/// Extending a numeral with further digits never shrinks its value: the
/// value of a prefix bounds the value of the whole from below.
proof fn lemma_digits_value_monotone(s: Seq<u8>, i: int)
    requires
        all_digits(s),
        0 <= i <= s.len(),
    ensures
        digits_value(s.take(i)) <= digits_value(s),
    decreases s.len() - i,
{
    if i < s.len() {
        lemma_digits_value_monotone(s, i + 1);
        let t = s.take(i + 1);
        assert(t.drop_last() =~= s.take(i));
        assert(all_digits(s.take(i))) by {
            assert(forall|k: int| 0 <= k < i ==> #[trigger] s.take(i)[k] == s[k]);
        }
        lemma_digits_value_nonneg(s.take(i));
        assert(digits_value(t) == digits_value(s.take(i)) * 10 + (t.last() - 48));
        assert(digits_value(s.take(i)) * 10 >= digits_value(s.take(i))) by (nonlinear_arith)
            requires
                digits_value(s.take(i)) >= 0,
        ;
    } else {
        assert(s.take(i) =~= s);
    }
}

/// Reads an unsigned decimal token (optionally `+`-prefixed), reporting
/// its value exactly when it is well formed and fits a `usize`.
fn parse_usize(s: &[u8]) -> (r: Option<usize>)
    ensures
        r is Some <==> token_valid(s@),
        r matches Some(n) ==> n == token_value(s@),
{
    let len = s.len();
    let start: usize = if len >= 2 && s[0] == 43 {
        1
    } else {
        0
    };
    proof {
        if start == 1 {
            assert(numeral_of(s@) =~= s@.subrange(1, s@.len() as int));
        } else {
            assert(numeral_of(s@) =~= s@);
        }
    }
    let ghost num = numeral_of(s@);
    if len == start {
        return None;
    }
    let mut acc: usize = 0;
    let mut i: usize = start;
    while i < len
        invariant
            start <= i <= len,
            len == s@.len(),
            num == numeral_of(s@),
            start + num.len() == len,
            forall|k: int| 0 <= k < num.len() ==> num[k] == s@[start + k],
            all_digits(num.take(i - start)),
            acc == digits_value(num.take(i - start)),
        decreases len - i,
    {
        let b = s[i];
        if !(48 <= b && b <= 57) {
            proof {
                assert(num[i - start] == s@[i as int]);
                assert(!is_digit(num[i - start]));
            }
            return None;
        }
        let d = (b - 48) as usize;
        proof {
            let done = num.take(i - start + 1);
            assert(done.drop_last() =~= num.take(i - start));
            assert(done.last() == num[i - start] && num[i - start] == s@[i as int]);
            assert(all_digits(done)) by {
                assert(forall|k: int| 0 <= k < done.len() ==> done[k] == num[k]);
            }
            assert(digits_value(done) == acc * 10 + d);
        }
        if acc > (usize::MAX - d) / 10 {
            proof {
                let q = (usize::MAX - d) as int / 10;
                let rem = (usize::MAX - d) as int % 10;
                vstd::arithmetic::div_mod::lemma_fundamental_div_mod((usize::MAX - d) as int, 10);
                vstd::arithmetic::div_mod::lemma_mod_bound((usize::MAX - d) as int, 10);
                assert(acc * 10 + d > usize::MAX) by (nonlinear_arith)
                    requires
                        acc > q,
                        10 * q + rem == usize::MAX - d,
                        0 <= rem < 10,
                        0 <= d <= 9,
                ;
                if all_digits(num) {
                    lemma_digits_value_monotone(num, i - start + 1);
                }
            }
            return None;
        }
        proof {
            let q = (usize::MAX - d) as int / 10;
            let rem = (usize::MAX - d) as int % 10;
            vstd::arithmetic::div_mod::lemma_fundamental_div_mod((usize::MAX - d) as int, 10);
            vstd::arithmetic::div_mod::lemma_mod_bound((usize::MAX - d) as int, 10);
            assert(acc * 10 + d <= usize::MAX) by (nonlinear_arith)
                requires
                    0 <= acc <= q,
                    10 * q + rem == usize::MAX - d,
                    0 <= rem < 10,
                    0 <= d <= 9,
            ;
        }
        acc = acc * 10 + d;
        i += 1;
    }
    proof {
        assert(num.take(len - start) =~= num);
    }
    Some(acc)
}

/// The characters a byte token shows as, one character per byte.
pub open spec fn chars_of(s: Seq<u8>) -> Seq<char> {
    s.map_values(|b: u8| b as char)
}

/// Relies on `String::push`: appends exactly the one character.
#[verifier::external_body]
fn push_char(s: &mut String, c: char)
    ensures
        final(s)@ == old(s)@.push(c),
{
    s.push(c);
}

/// Builds the string a byte token shows as.
fn bytes_to_string(b: &Vec<u8>) -> (r: String)
    ensures
        r@ == chars_of(b@),
{
    let mut s = String::new();
    let mut i: usize = 0;
    while i < b.len()
        invariant
            i <= b@.len(),
            s@.len() == i,
            forall|k: int| 0 <= k < i ==> s@[k] == (b@[k] as char),
        decreases b@.len() - i,
    {
        push_char(&mut s, b[i] as char);
        i += 1;
    }
    proof {
        assert(s@ =~= chars_of(b@));
    }
    s
}

/// The `k`-th scanned token, or the empty token where fewer were found.
pub open spec fn field_or_empty(fields: Seq<Seq<u8>>, k: int) -> Seq<u8> {
    if 0 <= k < fields.len() {
        fields[k]
    } else {
        Seq::empty()
    }
}

/// Whether the `k`-th token, if present, is a valid number; an absent
/// token defaults to zero and is always acceptable.
pub open spec fn num_field_ok(fields: Seq<Seq<u8>>, k: int) -> bool {
    k >= fields.len() || token_valid(fields[k])
}

/// The value of the `k`-th numeric token, zero where it is absent.
pub open spec fn num_field_value(fields: Seq<Seq<u8>>, k: int) -> int {
    if 0 <= k < fields.len() {
        token_value(fields[k])
    } else {
        0
    }
}

impl Pixel {
    /// The sample behind exactly three bytes, in R, G, B order.
    pub fn new(data: &[u8]) -> (r: Self)
        requires
            data@.len() == 3,
        ensures
            r.r == data@[0],
            r.g == data@[1],
            r.b == data@[2],
    {
        Pixel { r: data[0], g: data[1], b: data[2] }
    }

    /// Returns whether all three samples are zero.
    pub fn is_black(&self) -> (r: bool)
        ensures
            r == (self.r == 0 && self.g == 0 && self.b == 0),
    {
        self.r == 0 && self.g == 0 && self.b == 0
    }
}

impl PPM {
    /// The characters of the format tag.
    pub closed spec fn spec_format(&self) -> Seq<char> {
        self.format@
    }

    /// The decoded image width.
    pub closed spec fn spec_width(&self) -> usize {
        self.width
    }

    /// The decoded image height.
    pub closed spec fn spec_height(&self) -> usize {
        self.height
    }

    /// The decoded maximum sample value.
    pub closed spec fn spec_max(&self) -> usize {
        self.max
    }

    /// The decoded pixel samples, in row order.
    pub closed spec fn spec_pixels(&self) -> Seq<Pixel> {
        self.pixels@
    }

    /// Decodes an image from raw bytes: the header tokens as
    /// [`scan_header`] finds them — missing trailing tokens default to an
    /// empty tag and zero — and every 3 bytes after the header as one
    /// pixel. A numeric token that is not a `usize` decimal is
    /// `InvalidNumber`; sample data that is not whole 3-byte pixels is
    /// `TruncatedData`.
    pub fn from_vec(v: &Vec<u8>) -> (r: Result<PPM, PpmError>)
        ensures
            ({
                let fields = scanned(v@).0;
                let body = v@.skip(scanned(v@).1);
                &&& (r is Ok <==> num_field_ok(fields, 1) && num_field_ok(fields, 2)
                    && num_field_ok(fields, 3) && body.len() % 3 == 0)
                &&& (r matches Ok(p) ==> {
                    &&& p.spec_format() == chars_of(field_or_empty(fields, 0))
                    &&& p.spec_width() == num_field_value(fields, 1)
                    &&& p.spec_height() == num_field_value(fields, 2)
                    &&& p.spec_max() == num_field_value(fields, 3)
                    &&& p.spec_pixels().len() == body.len() / 3
                    &&& forall|q: int|
                        0 <= q < body.len() / 3 ==> #[trigger] p.spec_pixels()[q] == (Pixel {
                            r: body[3 * q],
                            g: body[3 * q + 1],
                            b: body[3 * q + 2],
                        })
                })
                &&& (r matches Err(e) ==> e == (if !(num_field_ok(fields, 1) && num_field_ok(
                    fields,
                    2,
                ) && num_field_ok(fields, 3)) {
                    PpmError::InvalidNumber
                } else {
                    PpmError::TruncatedData
                }))
            }),
    {
        let n = v.len();
        let mut tokens: Vec<Vec<u8>> = Vec::new();
        let ghost mut done_fields: Seq<Seq<u8>> = Seq::empty();
        let mut buffer: Vec<u8> = Vec::new();
        let mut in_comment = false;
        let mut state = ParseState::Start;
        let mut header_len: usize = n;
        let mut done = false;
        let mut i: usize = 0;
        while i < n && !done
            invariant
                n == v@.len(),
                i <= n,
                done_fields.len() == tokens@.len(),
                tokens@.len() == state.fields_found(),
                forall|k: int| 0 <= k < tokens@.len() ==> done_fields[k] == tokens@[k]@,
                header_len <= n,
                !done ==> tokens@.len() < 4,
                !done ==> header_len == n,
                !done ==> scanned(v@) == scan_header(v@, i as int, done_fields, buffer@, in_comment),
                done ==> scanned(v@) == (done_fields, header_len as int),
                done ==> tokens@.len() == 4,
            decreases n - i + (if done {
                0int
            } else {
                1int
            }),
        {
            let b = v[i];
            if in_comment {
                if b == 10 {
                    in_comment = false;
                }
            } else if b == 10 || b == 32 || b == 35 {
                if b == 35 {
                    in_comment = true;
                }
                if buffer.len() > 0 {
                    proof {
                        done_fields = done_fields.push(buffer@);
                    }
                    tokens.push(buffer);
                    buffer = Vec::new();
                    state = match state {
                        ParseState::Start => ParseState::FoundFormat,
                        ParseState::FoundFormat => ParseState::FoundWidth,
                        ParseState::FoundWidth => ParseState::FoundHeight,
                        ParseState::FoundHeight => ParseState::FoundMax,
                        ParseState::FoundMax => ParseState::FoundMax,
                    };
                    if let ParseState::FoundMax = state {
                        header_len = i + 1;
                        done = true;
                    }
                }
            } else {
                buffer.push(b);
            }
            i += 1;
        }
        proof {
            if !done {
                assert(scanned(v@) == (done_fields, n as int));
            }
            assert(scanned(v@).1 == header_len as int);
        }
        let format = if tokens.len() >= 1 {
            bytes_to_string(&tokens[0])
        } else {
            String::new()
        };
        let ghost fields = scanned(v@).0;
        proof {
            assert(fields == done_fields);
            assert(chars_of(Seq::<u8>::empty()) =~= Seq::<char>::empty());
        }
        let width = if tokens.len() >= 2 {
            match parse_usize(tokens[1].as_slice()) {
                Some(w) => w,
                None => {
                    return Err(PpmError::InvalidNumber);
                },
            }
        } else {
            0
        };
        let height = if tokens.len() >= 3 {
            match parse_usize(tokens[2].as_slice()) {
                Some(h) => h,
                None => {
                    return Err(PpmError::InvalidNumber);
                },
            }
        } else {
            0
        };
        let max = if tokens.len() >= 4 {
            match parse_usize(tokens[3].as_slice()) {
                Some(m) => m,
                None => {
                    return Err(PpmError::InvalidNumber);
                },
            }
        } else {
            0
        };
        let body_len = n - header_len;
        if body_len % 3 != 0 {
            return Err(PpmError::TruncatedData);
        }
        let count = body_len / 3;
        let mut pixels: Vec<Pixel> = Vec::new();
        let mut q: usize = 0;
        while q < count
            invariant
                n == v@.len(),
                header_len + 3 * count <= n,
                q <= count,
                pixels@.len() == q,
                forall|t: int|
                    0 <= t < q ==> #[trigger] pixels@[t] == (Pixel {
                        r: v@[header_len + 3 * t],
                        g: v@[header_len + 3 * t + 1],
                        b: v@[header_len + 3 * t + 2],
                    }),
            decreases count - q,
        {
            let off = header_len + 3 * q;
            let px = Pixel::new(vstd::slice::slice_subrange(v.as_slice(), off, off + 3));
            pixels.push(px);
            q += 1;
        }
        proof {
            let body = v@.skip(scanned(v@).1);
            assert(body.len() == n - header_len);
            assert(forall|t: int|
                0 <= t < body.len() ==> #[trigger] body[t] == v@[header_len + t]);
        }
        Ok(PPM { format, width, height, max, pixels })
    }

    /// Returns the format tag.
    pub fn format(&self) -> (r: &str)
        ensures
            r@ == self.spec_format(),
    {
        self.format.as_str()
    }

    /// Returns the image width.
    pub fn width(&self) -> (r: usize)
        ensures
            r == self.spec_width(),
    {
        self.width
    }

    /// Returns the image height.
    pub fn height(&self) -> (r: usize)
        ensures
            r == self.spec_height(),
    {
        self.height
    }

    /// Returns the maximum sample value.
    pub fn max(&self) -> (r: usize)
        ensures
            r == self.spec_max(),
    {
        self.max
    }

    /// Returns the decoded pixel samples, in row order.
    pub fn pixels(&self) -> (r: &Vec<Pixel>)
        ensures
            r@ == self.spec_pixels(),
    {
        &self.pixels
    }

    /// Returns the sample at column `x` of row `y`, or nothing where the
    /// coordinates point past the decoded samples.
    pub fn pixel(&self, x: usize, y: usize) -> (r: Option<&Pixel>)
        ensures
            r is Some <==> y * self.spec_width() + x < self.spec_pixels().len(),
            r matches Some(p) ==> *p == self.spec_pixels()[y * self.spec_width() + x],
    {
        let count = self.pixels.len();
        match y.checked_mul(self.width) {
            Some(base) => match base.checked_add(x) {
                Some(idx) => {
                    if idx < count {
                        Some(&self.pixels[idx])
                    } else {
                        None
                    }
                },
                None => None,
            },
            None => None,
        }
    }
}

} // verus!
