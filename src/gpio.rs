use vstd::prelude::*;
use vstd::string::*;

verus! {

/// Prefix of every chip's character device; the chip index follows it.
pub const GPIO_CHIP_BASE_PATH: &'static str = "/dev/gpiochip";

/// Number of GPIO chips on the board.
pub const GPIO_CHIPS_N: usize = 4;

/// Lines on one chip.
pub const LINES_PER_CHIP: u32 = 32;

/// Lines in one lettered port.
pub const LINES_PER_PORT: u32 = 8;

/// Why a symbolic identifier could not be resolved.
#[derive(Clone, Copy, Debug, PartialEq, Eq, Structural)]
pub enum ParseError {
    /// The identifier does not start with `GPIO`.
    BadPrefix,
    /// No `_` follows the prefix, or the bank before it is not an unsigned integer.
    BadBank,
    /// The port is not an ASCII letter, or the pin after it is not an unsigned integer.
    BadPin,
    /// The chip index does not fit in 32 bits.
    OutOfRange,
}

pub open spec fn is_digit(c: char) -> bool {
    '0' as u32 <= c as u32 && c as u32 <= '9' as u32
}

pub open spec fn digit_of(c: char) -> int {
    c as u32 - '0' as u32
}

pub open spec fn all_digits(s: Seq<char>) -> bool {
    forall|i: int| 0 <= i < s.len() ==> is_digit(#[trigger] s[i])
}

/// The number that a string of decimal digits spells.
pub open spec fn decimal_value(s: Seq<char>) -> int
    decreases s.len(),
{
    if s.len() == 0 {
        0
    } else {
        decimal_value(s.drop_last()) * 10 + digit_of(s.last())
    }
}

/// An unsigned 32-bit decimal: an optional `+`, then one or more digits,
/// whose value fits in `u32`.
pub open spec fn parse_u32(s: Seq<char>) -> Option<u32> {
    let d = if s.len() > 0 && s[0] == '+' {
        s.drop_first()
    } else {
        s
    };
    if d.len() > 0 && all_digits(d) && decimal_value(d) <= u32::MAX {
        Some(decimal_value(d) as u32)
    } else {
        None
    }
}

pub open spec fn has_gpio_prefix(s: Seq<char>) -> bool {
    s.len() >= 4 && s[0] == 'G' && s[1] == 'P' && s[2] == 'I' && s[3] == 'O'
}

/// Index of the first `c` in `s`, or -1 when there is none.
pub open spec fn index_of(s: Seq<char>, c: char) -> int
    decreases s.len(),
{
    if s.len() == 0 {
        -1
    } else if s[0] == c {
        0
    } else {
        let r = index_of(s.drop_first(), c);
        if r < 0 {
            -1
        } else {
            r + 1
        }
    }
}

pub open spec fn is_ascii_upper(c: char) -> bool {
    'A' as u32 <= c as u32 && c as u32 <= 'Z' as u32
}

pub open spec fn is_ascii_letter(c: char) -> bool {
    is_ascii_upper(c) || ('a' as u32 <= c as u32 && c as u32 <= 'z' as u32)
}

/// Zero-based index of a port letter, ignoring case: `a` and `A` are 0.
pub open spec fn port_index(c: char) -> int {
    if is_ascii_upper(c) {
        c as u32 - 'A' as u32
    } else {
        c as u32 - 'a' as u32
    }
}

/// Absolute line number of bank, port and pin: 32 lines per bank, 8 per port.
pub open spec fn absolute_offset(bank: int, port: char, pin: int) -> int {
    bank * LINES_PER_CHIP + port_index(port) * LINES_PER_PORT + pin
}

/// What an identifier `GPIO<bank>_<port><pin>` resolves to: its chip index and
/// its line offset on that chip, or the first step at which it fails.
pub open spec fn resolve_spec(id: Seq<char>) -> Result<(u32, u32), ParseError> {
    if !has_gpio_prefix(id) {
        Err(ParseError::BadPrefix)
    } else {
        let rest = id.subrange(4, id.len() as int);
        let u = index_of(rest, '_');
        if u < 0 || parse_u32(rest.subrange(0, u)) is None {
            Err(ParseError::BadBank)
        } else {
            let tail = rest.subrange(u + 1, rest.len() as int);
            if tail.len() == 0 || !is_ascii_letter(tail[0]) || parse_u32(tail.drop_first()) is None {
                Err(ParseError::BadPin)
            } else {
                let abs = absolute_offset(
                    parse_u32(rest.subrange(0, u))->0 as int,
                    tail[0],
                    parse_u32(tail.drop_first())->0 as int,
                );
                if abs / LINES_PER_CHIP as int > u32::MAX {
                    Err(ParseError::OutOfRange)
                } else {
                    Ok(((abs / LINES_PER_CHIP as int) as u32, (abs % LINES_PER_CHIP as int) as u32))
                }
            }
        }
    }
}

proof fn lemma_decimal_prefix_le(s: Seq<char>, k: int)
    requires
        all_digits(s),
        0 <= k <= s.len(),
    ensures
        0 <= decimal_value(s.subrange(0, k)) <= decimal_value(s),
    decreases s.len(),
{
    if s.len() > 0 {
        let t = s.drop_last();
        assert(all_digits(t)) by {
            assert forall|i: int| 0 <= i < t.len() implies is_digit(#[trigger] t[i]) by {
                assert(t[i] == s[i]);
            }
        }
        assert(is_digit(s[s.len() - 1]));
        if k < s.len() {
            lemma_decimal_prefix_le(t, k);
            assert(t.subrange(0, k) =~= s.subrange(0, k));
        } else {
            lemma_decimal_prefix_le(t, 0);
            assert(s.subrange(0, k) =~= s);
        }
    } else {
        assert(s.subrange(0, k) =~= s);
    }
}

proof fn lemma_index_of(s: Seq<char>, c: char, i: int)
    requires
        0 <= i <= s.len(),
        forall|j: int| 0 <= j < i ==> s[j] != c,
        i < s.len() ==> s[i] == c,
    ensures
        index_of(s, c) == (if i < s.len() { i } else { -1 }),
    decreases s.len(),
{
    if s.len() > 0 && i > 0 {
        let t = s.drop_first();
        assert forall|j: int| 0 <= j < i - 1 implies t[j] != c by {
            assert(t[j] == s[j + 1]);
        }
        lemma_index_of(t, c, i - 1);
    }
}

/// The characters of `s`, one per element.
fn chars_of(s: &str) -> (r: Vec<char>)
    ensures
        r@ == s@,
{
    let n = s.unicode_len();
    let mut r: Vec<char> = Vec::new();
    let mut i: usize = 0;
    while i < n
        invariant
            n == s@.len(),
            i <= n,
            r@ == s@.subrange(0, i as int),
        decreases n - i,
    {
        r.push(s.get_char(i));
        i = i + 1;
        assert(r@ =~= s@.subrange(0, i as int));
    }
    assert(r@ =~= s@);
    r
}

/// Reads `cs[start..end]` as an unsigned 32-bit decimal.
fn parse_decimal(cs: &Vec<char>, start: usize, end: usize) -> (r: Option<u32>)
    requires
        start <= end <= cs.len(),
    ensures
        r == parse_u32(cs@.subrange(start as int, end as int)),
{
    let ghost s = cs@.subrange(start as int, end as int);
    assert(s.len() > 0 ==> s[0] == cs@[start as int]);
    let mut first = start;
    if first < end && cs[first] == '+' {
        first = first + 1;
        assert(s.drop_first() =~= cs@.subrange(first as int, end as int));
    } else {
        assert(s =~= cs@.subrange(first as int, end as int));
    }
    let ghost d = cs@.subrange(first as int, end as int);
    assert(d == (if s.len() > 0 && s[0] == '+' { s.drop_first() } else { s }));
    if first == end {
        return None;
    }
    let mut acc: u64 = 0;
    let mut i = first;
    while i < end
        invariant
            start <= first <= i <= end <= cs.len(),
            d == cs@.subrange(first as int, end as int),
            s == cs@.subrange(start as int, end as int),
            d == (if s.len() > 0 && s[0] == '+' { s.drop_first() } else { s }),
            acc <= u32::MAX,
            acc == decimal_value(cs@.subrange(first as int, i as int)),
            all_digits(cs@.subrange(first as int, i as int)),
        decreases end - i,
    {
        let code = cs[i] as u32;
        if code < '0' as u32 || code > '9' as u32 {
            assert(!is_digit(d[i - first]));
            return None;
        }
        let ghost p = cs@.subrange(first as int, i as int + 1);
        assert(p.drop_last() =~= cs@.subrange(first as int, i as int));
        acc = acc * 10 + (code - '0' as u32) as u64;
        assert(all_digits(p)) by {
            assert forall|j: int| 0 <= j < p.len() implies is_digit(#[trigger] p[j]) by {
                if j < p.len() - 1 {
                    assert(p[j] == cs@.subrange(first as int, i as int)[j]);
                }
            }
        }
        if acc > u32::MAX as u64 {
            proof {
                if all_digits(d) {
                    lemma_decimal_prefix_le(d, i - first + 1);
                    assert(d.subrange(0, i - first + 1) =~= p);
                }
            }
            return None;
        }
        i = i + 1;
    }
    assert(cs@.subrange(first as int, i as int) =~= d);
    Some(acc as u32)
}

/// A resolved pin: the identifier it was written as, the chip that carries
/// it and its line offset on that chip.
#[derive(Debug)]
pub struct GpioId {
    string_id: String,
    chip_n: u32,
    line_offset: u32,
}

impl GpioId {
    pub closed spec fn id_view(&self) -> Seq<char> {
        self.string_id@
    }

    pub closed spec fn chip_spec(&self) -> u32 {
        self.chip_n
    }

    pub closed spec fn offset_spec(&self) -> u32 {
        self.line_offset
    }

    /// Absolute line number of a bank, a port letter and a pin.
    fn calculate_abs_offset(bank: u32, port: char, pin: u32) -> (r: u64)
        requires
            is_ascii_letter(port),
        ensures
            r == absolute_offset(bank as int, port, pin as int),
    {
        let code = port as u32;
        let port_val: u64 = if 'A' as u32 <= code && code <= 'Z' as u32 {
            (code - 'A' as u32) as u64
        } else {
            (code - 'a' as u32) as u64
        };
        assert(LINES_PER_CHIP == 32 && LINES_PER_PORT == 8);
        assert(bank as u64 * 32 <= u32::MAX as u64 * 32) by (nonlinear_arith);
        assert(port_val * 8 < 208) by (nonlinear_arith)
            requires
                port_val < 26,
        ;
        bank as u64 * LINES_PER_CHIP as u64 + port_val * LINES_PER_PORT as u64 + pin as u64
    }

    /// Resolves `GPIO<bank>_<port><pin>` into a chip index and a line offset.
    pub fn parse(id: &str) -> (r: Result<GpioId, ParseError>)
        ensures
            match resolve_spec(id@) {
                Ok((chip, offset)) => r matches Ok(g) && g.id_view() == id@ && g.chip_spec() == chip
                    && g.offset_spec() == offset,
                Err(e) => r == Err::<GpioId, ParseError>(e),
            },
    {
        let cs = chars_of(id);
        let n = cs.len();
        if n < 4 || cs[0] != 'G' || cs[1] != 'P' || cs[2] != 'I' || cs[3] != 'O' {
            return Err(ParseError::BadPrefix);
        }
        let ghost rest = id@.subrange(4, id@.len() as int);
        let mut u: usize = 4;
        while u < n && cs[u] != '_'
            invariant
                4 <= u <= n,
                n == cs@.len(),
                cs@ == id@,
                rest == id@.subrange(4, id@.len() as int),
                forall|j: int| 0 <= j < u - 4 ==> rest[j] != '_',
            decreases n - u,
        {
            u = u + 1;
        }
        proof {
            lemma_index_of(rest, '_', u - 4);
        }
        if u == n {
            return Err(ParseError::BadBank);
        }
        assert(rest.subrange(0, u - 4) =~= cs@.subrange(4, u as int));
        let bank = match parse_decimal(&cs, 4, u) {
            Some(b) => b,
            None => {
                return Err(ParseError::BadBank);
            },
        };
        let ghost tail = rest.subrange(u - 4 + 1, rest.len() as int);
        if u + 1 >= n {
            assert(tail.len() == 0);
            return Err(ParseError::BadPin);
        }
        let port = cs[u + 1];
        assert(tail[0] == port);
        let code = port as u32;
        if !(('A' as u32 <= code && code <= 'Z' as u32) || ('a' as u32 <= code && code <= 'z' as u32)) {
            return Err(ParseError::BadPin);
        }
        assert(tail.drop_first() =~= cs@.subrange(u + 2, n as int));
        let pin = match parse_decimal(&cs, u + 2, n) {
            Some(p) => p,
            None => {
                return Err(ParseError::BadPin);
            },
        };
        let offset_abs = GpioId::calculate_abs_offset(bank, port, pin);
        let chip = offset_abs / LINES_PER_CHIP as u64;
        if chip > u32::MAX as u64 {
            return Err(ParseError::OutOfRange);
        }
        let line_offset = (offset_abs % LINES_PER_CHIP as u64) as u32;
        Ok(GpioId { string_id: id.to_owned(), chip_n: chip as u32, line_offset })
    }

    /// Resolves an identifier that is known to be well formed.
    pub fn from_literal(id: &str) -> (r: GpioId)
        requires
            resolve_spec(id@) is Ok,
        ensures
            r.id_view() == id@,
            r.chip_spec() == resolve_spec(id@)->Ok_0.0,
            r.offset_spec() == resolve_spec(id@)->Ok_0.1,
    {
        match GpioId::parse(id) {
            Ok(g) => g,
            Err(_) => {
                proof {
                    assert(false);
                }
                GpioId { string_id: id.to_owned(), chip_n: 0, line_offset: 0 }
            },
        }
    }

    /// The identifier as it was written.
    pub fn as_str(&self) -> (r: &str)
        ensures
            r@ == self.id_view(),
    {
        self.string_id.as_str()
    }

    /// Index of the chip that carries the line.
    pub fn get_chip_number(&self) -> (r: u32)
        ensures
            r == self.chip_spec(),
    {
        self.chip_n
    }

    /// Offset of the line on its chip, below 32.
    pub fn get_line_offset(&self) -> (r: u32)
        ensures
            r == self.offset_spec(),
    {
        self.line_offset
    }
}

#[verifier::external_type_specification]
#[verifier::external_body]
pub struct ExChip(gpio_cdev::Chip);

#[verifier::external_type_specification]
#[verifier::external_body]
pub struct ExLine(gpio_cdev::Line);

#[verifier::external_type_specification]
#[verifier::external_body]
pub struct ExLineHandle(gpio_cdev::LineHandle);

#[verifier::external_type_specification]
#[verifier::external_body]
pub struct ExCdevError(gpio_cdev::Error);

/// Consumer label under which lines are requested.
pub const CONSUMER_LABEL: &'static str = "act_led_blink";

/// What may go wrong on the way from an identifier to a driven line.
#[derive(Debug)]
pub enum GpioError {
    /// The identifier does not resolve.
    InvalidIdentifier(ParseError),
    /// The identifier resolves to a chip the board does not have: `path` is
    /// where that chip would be, `chips` how many chips the board has.
    UnsupportedChip { id: String, path: String, chips: usize },
    /// The chip device at `path` could not be opened.
    ChipOpenFailed { path: String, cause: gpio_cdev::Error },
    /// The line could not be acquired or requested as an output.
    LineRequestFailed { id: String, offset: u32, cause: gpio_cdev::Error },
    /// Reading or driving an already requested line failed.
    LineAccessFailed { line: usize, cause: gpio_cdev::Error },
    /// No line was requested under this index.
    UnknownLine(usize),
}

/// The shortest decimal form of `n`.
pub open spec fn decimal_chars(n: nat) -> Seq<char>
    decreases n,
{
    let digits = seq!['0', '1', '2', '3', '4', '5', '6', '7', '8', '9'];
    if n < 10 {
        seq![digits[n as int]]
    } else {
        decimal_chars(n / 10) + seq![digits[(n % 10) as int]]
    }
}

/// Device path of chip `chip`.
pub open spec fn chip_path_spec(chip: u32) -> Seq<char> {
    GPIO_CHIP_BASE_PATH@ + decimal_chars(chip as nat)
}

/// Relies on `u32`'s `Display` (through `to_string`), which writes the
/// shortest decimal form of the number.
#[verifier::external_body]
fn decimal_string(n: u32) -> (r: String)
    ensures
        r@ == decimal_chars(n as nat),
{
    n.to_string()
}

/// Device path of chip `chip`: the base path followed by the index.
pub fn chip_path(chip: u32) -> (r: String)
    ensures
        r@ == chip_path_spec(chip),
{
    let digits = decimal_string(chip);
    String::from_str(GPIO_CHIP_BASE_PATH).concat(digits.as_str())
}

/// Relies on `gpio_cdev::Chip::new`, which opens the chip's character device
/// at `path`; whether that succeeds depends on the system.
#[verifier::external_body]
fn open_chip(path: &str) -> (r: Result<gpio_cdev::Chip, gpio_cdev::Error>) {
    gpio_cdev::Chip::new(path)
}

/// Relies on `gpio_cdev::Chip::get_line`, which names the line at `offset`
/// of the chip, or fails where the chip has no such line.
#[verifier::external_body]
fn chip_get_line(chip: &mut gpio_cdev::Chip, offset: u32) -> (r: Result<gpio_cdev::Line, gpio_cdev::Error>) {
    chip.get_line(offset)
}

/// Relies on `gpio_cdev::Line::request` with the output flag: asks the kernel
/// for the line as an output driven to `default`, under `consumer`.
#[verifier::external_body]
fn request_output(line: &gpio_cdev::Line, default: u8, consumer: &str) -> (r: Result<gpio_cdev::LineHandle, gpio_cdev::Error>) {
    line.request(gpio_cdev::LineRequestFlags::OUTPUT, default, consumer)
}

/// Relies on `gpio_cdev::LineHandle::set_value`, which asks the kernel to
/// drive the line to `value`.
#[verifier::external_body]
fn handle_set_value(handle: &gpio_cdev::LineHandle, value: u8) -> (r: Result<(), gpio_cdev::Error>) {
    handle.set_value(value)
}

/// Relies on `gpio_cdev::LineHandle::get_value`, which reads the line's
/// current value from the kernel.
#[verifier::external_body]
fn handle_get_value(handle: &gpio_cdev::LineHandle) -> (r: Result<u8, gpio_cdev::Error>) {
    handle.get_value()
}

/// No identifier occurs twice.
pub open spec fn unique_ids(ids: Seq<Seq<char>>) -> bool {
    forall|i: int, j: int| 0 <= i < j < ids.len() ==> ids[i] != ids[j]
}

/// How a line is requested: on chip `.0` at offset `.1`, as an output
/// driven to `.2` at first, under the consumer label `.3`.
pub type LineRequest = (u32, u32, u8, Seq<char>);

/// What `get_or_create(id)` does to a well-formed storage `pre`, leaving
/// `post` and returning `r`.
pub open spec fn get_or_create_spec(pre: GpioStorage, post: GpioStorage, id: Seq<char>, r: Result<usize, GpioError>) -> bool {
    &&& post.wf()
    &&& unique_ids(post.ids())
    &&& post.ids().len() <= pre.ids().len() + 1
    &&& post.requests().len() == post.ids().len() && post.driven().len() == post.ids().len()
    &&& forall|k: int| 0 <= k < pre.ids().len() ==> post.ids()[k] == pre.ids()[k]
        && post.handles()[k] == pre.handles()[k] && post.requests()[k] == pre.requests()[k]
        && post.driven()[k] == pre.driven()[k]
    &&& forall|c: int| 0 <= c < GPIO_CHIPS_N ==> post.chip_opens(c) <= 1
    &&& forall|c: int| 0 <= c < GPIO_CHIPS_N && pre.chip_open(c) ==> post.chip_open(c)
    &&& r is Ok ==> r->Ok_0 < post.ids().len() && post.ids()[r->Ok_0 as int] == id
    &&& pre.ids().contains(id) ==> post == pre && (r matches Ok(k)
        && k < pre.ids().len() && pre.ids()[k as int] == id)
    &&& !pre.ids().contains(id) ==> match resolve_spec(id) {
        Err(e) => post == pre && r == Err::<usize, GpioError>(GpioError::InvalidIdentifier(e)),
        Ok((chip, offset)) => if chip >= GPIO_CHIPS_N {
            &&& post == pre
            &&& r matches Err(GpioError::UnsupportedChip { id: i, path, chips })
            &&& i@ == id && path@ == chip_path_spec(chip) && chips == GPIO_CHIPS_N
        } else {
            &&& post.chip_open(chip as int)
                || (r matches Err(GpioError::ChipOpenFailed { path, .. }) && path@ == chip_path_spec(chip))
            &&& forall|c: int| 0 <= c < GPIO_CHIPS_N && c != chip ==> post.chip_open(c) == pre.chip_open(c)
                && post.chip_opens(c) == pre.chip_opens(c)
            &&& pre.chip_open(chip as int) ==> post.chip_opens(chip as int) == pre.chip_opens(chip as int)
            &&& r is Ok ==> r->Ok_0 == pre.ids().len() && post.ids() == pre.ids().push(id)
                && post.requests() == pre.requests().push((chip, offset, 0u8, CONSUMER_LABEL@))
                && post.driven() == pre.driven().push(0u8)
            &&& r is Err ==> post.requests() == pre.requests() && post.driven() == pre.driven()
            &&& r is Err && r->Err_0 is ChipOpenFailed ==> post == pre && !pre.chip_open(chip as int)
            &&& r is Err ==> post.ids() == pre.ids() && (r->Err_0 is ChipOpenFailed
                || (r->Err_0 matches GpioError::LineRequestFailed { id: i, offset: o, .. } && i@ == id && o == offset))
        },
    }
}

/// One requested output line and the identifier it was requested under.
struct LineEntry {
    id: String,
    handle: gpio_cdev::LineHandle,
}

/// Process-wide owner of open chips and requested output lines.
///
/// Chips are opened on first use, one slot per chip index; lines are
/// requested once per identifier and kept for the life of the storage, so
/// that no line is ever requested twice.
pub struct GpioStorage {
    pins: Vec<LineEntry>,
    chips: Vec<Option<gpio_cdev::Chip>>,
    chip_opens: Ghost<Seq<nat>>,
    requests: Ghost<Seq<LineRequest>>,
    driven: Ghost<Seq<u8>>,
}

impl GpioStorage {
    /// Identifiers of the requested lines; a line is referred to by its index here.
    pub closed spec fn ids(&self) -> Seq<Seq<char>> {
        self.pins@.map_values(|e: LineEntry| e.id@)
    }

    /// The requested line handles, in the order of `ids`.
    pub closed spec fn handles(&self) -> Seq<gpio_cdev::LineHandle> {
        self.pins@.map_values(|e: LineEntry| e.handle)
    }

    /// How each line was requested, in the order of `ids`.
    pub closed spec fn requests(&self) -> Seq<LineRequest> {
        self.requests@
    }

    /// The value last driven onto each line, in the order of `ids`: the
    /// initial value of its request, then that of each successful write.
    pub closed spec fn driven(&self) -> Seq<u8> {
        self.driven@
    }

    /// The storage after `v` was driven onto line `line`.
    pub closed spec fn drive_spec(&self, line: int, v: u8) -> GpioStorage {
        GpioStorage {
            pins: self.pins,
            chips: self.chips,
            chip_opens: self.chip_opens,
            requests: self.requests,
            driven: Ghost(self.driven@.update(line, v)),
        }
    }

    /// Whether the chip with index `c` has been opened.
    pub closed spec fn chip_open(&self, c: int) -> bool {
        self.chips@[c] is Some
    }

    /// How many times the chip with index `c` has been opened.
    pub closed spec fn chip_opens(&self, c: int) -> nat {
        self.chip_opens@[c]
    }

    /// One slot per chip; each open chip was opened exactly once; identifiers
    /// are unique; every requested line resolves to a chip that is open and
    /// was requested at the address its identifier resolves to, driven to 0
    /// at first, under the consumer label.
    pub closed spec fn wf(&self) -> bool {
        &&& self.requests@.len() == self.pins@.len()
        &&& self.driven@.len() == self.pins@.len()
        &&& forall|i: int| 0 <= i < self.pins@.len() ==> #[trigger] self.requests@[i] == (
            resolve_spec(self.pins@[i].id@)->Ok_0.0,
            resolve_spec(self.pins@[i].id@)->Ok_0.1,
            0u8,
            CONSUMER_LABEL@,
        )
        &&& self.chips@.len() == GPIO_CHIPS_N
        &&& self.chip_opens@.len() == GPIO_CHIPS_N
        &&& forall|c: int| 0 <= c < GPIO_CHIPS_N ==> #[trigger] self.chip_opens@[c] == (if self.chips@[c] is Some { 1nat } else { 0nat })
        &&& forall|i: int, j: int| 0 <= i < j < self.pins@.len() ==> self.pins@[i].id@ != self.pins@[j].id@
        &&& forall|i: int| 0 <= i < self.pins@.len() ==> {
            let r = resolve_spec(#[trigger] self.pins@[i].id@);
            &&& r is Ok
            &&& r->Ok_0.0 < GPIO_CHIPS_N
            &&& self.chips@[r->Ok_0.0 as int] is Some
        }
    }

    /// An empty storage: no chip open, no line requested.
    pub fn new() -> (r: GpioStorage)
        ensures
            r.wf(),
            r.ids().len() == 0,
            r.requests().len() == 0,
            r.driven().len() == 0,
            forall|c: int| 0 <= c < GPIO_CHIPS_N ==> !r.chip_open(c) && r.chip_opens(c) == 0,
    {
        let mut chips: Vec<Option<gpio_cdev::Chip>> = Vec::new();
        let mut i: usize = 0;
        while i < GPIO_CHIPS_N
            invariant
                i <= GPIO_CHIPS_N,
                chips@.len() == i,
                forall|c: int| 0 <= c < i ==> chips@[c] is None,
            decreases GPIO_CHIPS_N - i,
        {
            chips.push(None);
            i = i + 1;
        }
        GpioStorage {
            pins: Vec::new(),
            chips,
            chip_opens: Ghost(Seq::new(GPIO_CHIPS_N as nat, |c: int| 0nat)),
            requests: Ghost(Seq::empty()),
            driven: Ghost(Seq::empty()),
        }
    }

    /// Opens chip `chip` unless it is open already.
    fn ensure_chip(&mut self, chip: u32) -> (r: Result<(), GpioError>)
        requires
            old(self).wf(),
            chip < GPIO_CHIPS_N,
        ensures
            final(self).wf(),
            final(self).pins@ == old(self).pins@,
            final(self).requests@ == old(self).requests@,
            final(self).driven@ == old(self).driven@,
            forall|c: int| 0 <= c < GPIO_CHIPS_N && c != chip ==> #[trigger] final(self).chips@[c] == old(self).chips@[c],
            forall|c: int| 0 <= c < GPIO_CHIPS_N && c != chip ==> #[trigger] final(self).chip_opens@[c] == old(self).chip_opens@[c],
            old(self).chip_open(chip as int) ==> *final(self) == *old(self) && r is Ok,
            r is Ok ==> final(self).chip_open(chip as int),
            r is Err ==> *final(self) == *old(self) && (r->Err_0 matches GpioError::ChipOpenFailed { path, .. }
                && path@ == chip_path_spec(chip)),
    {
        let idx = chip as usize;
        if self.chips[idx].is_some() {
            return Ok(());
        }
        let path = chip_path(chip);
        match open_chip(path.as_str()) {
            Ok(new_chip) => {
                self.chips.set(idx, Some(new_chip));
                self.chip_opens = Ghost(self.chip_opens@.update(idx as int, self.chip_opens@[idx as int] + 1));
                assert forall|i: int| 0 <= i < self.pins@.len() implies {
                    let r = resolve_spec(#[trigger] self.pins@[i].id@);
                    &&& r is Ok
                    &&& r->Ok_0.0 < GPIO_CHIPS_N
                    &&& self.chips@[r->Ok_0.0 as int] is Some
                } by {
                    let r = resolve_spec(self.pins@[i].id@);
                    assert(old(self).chips@[r->Ok_0.0 as int] is Some);
                }
                Ok(())
            },
            Err(cause) => Err(GpioError::ChipOpenFailed { path, cause }),
        }
    }

    /// The output handle for `id`: the one requested earlier under the same
    /// identifier, or a new one, requested once, on a chip opened at most once.
    pub fn get_or_create(&mut self, id: &str) -> (r: Result<usize, GpioError>)
        requires
            old(self).wf(),
        ensures
            get_or_create_spec(*old(self), *final(self), id@, r),
    {
        if let Some(k) = self.lookup(id) {
            return Ok(k);
        }
        let gpio_id = match GpioId::parse(id) {
            Ok(g) => g,
            Err(e) => {
                return Err(GpioError::InvalidIdentifier(e));
            },
        };
        let chip = gpio_id.get_chip_number();
        let offset = gpio_id.get_line_offset();
        if chip as usize >= GPIO_CHIPS_N {
            return Err(GpioError::UnsupportedChip { id: id.to_owned(), path: chip_path(chip), chips: GPIO_CHIPS_N });
        }
        self.ensure_chip(chip)?;
        let idx = chip as usize;
        let ghost mid = *self;
        let line = match &mut self.chips[idx] {
            Some(c) => chip_get_line(c, offset),
            None => {
                proof {
                    assert(false);
                }
                return Err(GpioError::UnknownLine(0));
            },
        };
        assert(self.pins@ == mid.pins@);
        assert(self.chip_opens@ == mid.chip_opens@);
        assert(self.requests@ == mid.requests@);
        assert(self.driven@ == mid.driven@);
        assert forall|c: int| 0 <= c < GPIO_CHIPS_N && c != chip implies self.chip_open(c) == old(self).chip_open(c)
            && self.chip_opens(c) == old(self).chip_opens(c) by {
            assert(self.chips@[c] == mid.chips@[c]);
            assert(mid.chips@[c] == old(self).chips@[c]);
            assert(mid.chip_opens@[c] == old(self).chip_opens@[c]);
        }
        let line = match line {
            Ok(l) => l,
            Err(cause) => {
                return Err(GpioError::LineRequestFailed { id: id.to_owned(), offset, cause });
            },
        };
        let initial: u8 = 0;
        let handle = match request_output(&line, initial, CONSUMER_LABEL) {
            Ok(h) => h,
            Err(cause) => {
                return Err(GpioError::LineRequestFailed { id: id.to_owned(), offset, cause });
            },
        };
        let k = self.pins.len();
        let ghost before = self.pins@;
        self.pins.push(LineEntry { id: id.to_owned(), handle });
        self.requests = Ghost(self.requests@.push((chip, offset, initial, CONSUMER_LABEL@)));
        self.driven = Ghost(self.driven@.push(initial));
        proof {
            assert forall|i: int, j: int| 0 <= i < j < self.pins@.len() implies self.pins@[i].id@
                != self.pins@[j].id@ by {
                if j == k {
                    assert(old(self).ids()[i] == before[i].id@);
                }
            }
            assert(self.ids() =~= old(self).ids().push(id@));
        }
        Ok(k)
    }

    /// Drives line `line` to `value`, and records it as driven once the
    /// write has succeeded.
    pub fn set_value(&mut self, line: usize, value: u8) -> (r: Result<(), GpioError>)
        ensures
            line >= old(self).ids().len() ==> (r matches Err(GpioError::UnknownLine(l)) && l == line),
            line < old(self).ids().len() ==> r is Ok || r->Err_0 is LineAccessFailed,
            r is Ok ==> *final(self) == old(self).drive_spec(line as int, value),
            r is Err ==> *final(self) == *old(self),
    {
        if line >= self.pins.len() {
            return Err(GpioError::UnknownLine(line));
        }
        match handle_set_value(&self.pins[line].handle, value) {
            Ok(()) => {
                self.driven = Ghost(self.driven@.update(line as int, value));
                Ok(())
            },
            Err(cause) => Err(GpioError::LineAccessFailed { line, cause }),
        }
    }

    /// Reads the current value of line `line`.
    pub fn get_value(&self, line: usize) -> (r: Result<u8, GpioError>)
        ensures
            line >= self.ids().len() ==> (r matches Err(GpioError::UnknownLine(l)) && l == line),
            line < self.ids().len() ==> r is Ok || r->Err_0 is LineAccessFailed,
    {
        if line >= self.pins.len() {
            return Err(GpioError::UnknownLine(line));
        }
        match handle_get_value(&self.pins[line].handle) {
            Ok(v) => Ok(v),
            Err(cause) => Err(GpioError::LineAccessFailed { line, cause }),
        }
    }

    /// Index of the line requested under `id`, if any.
    pub fn lookup(&self, id: &str) -> (r: Option<usize>)
        ensures
            match r {
                Some(k) => k < self.ids().len() && self.ids()[k as int] == id@,
                None => !self.ids().contains(id@),
            },
    {
        let key = id.to_owned();
        let mut k: usize = 0;
        while k < self.pins.len()
            invariant
                k <= self.pins@.len(),
                key@ == id@,
                forall|j: int| 0 <= j < k ==> self.ids()[j] != id@,
            decreases self.pins@.len() - k,
        {
            if self.pins[k].id == key {
                return Some(k);
            }
            k = k + 1;
        }
        None
    }
}


/// Resolution depends on the identifier alone: equal identifiers resolve
/// alike, and a resolved line offset is below the 32 lines of a chip.
pub proof fn lemma_resolve_deterministic(a: Seq<char>, b: Seq<char>)
    requires
        a == b,
    ensures
        resolve_spec(a) == resolve_spec(b),
        resolve_spec(a) is Ok ==> resolve_spec(a)->Ok_0.1 < LINES_PER_CHIP,
{
}

/// Asking twice for the same identifier yields the same line: the second
/// call finds it and changes nothing, so no chip is opened and no line is
/// requested again.
pub proof fn lemma_get_or_create_reuses(
    s0: GpioStorage,
    s1: GpioStorage,
    s2: GpioStorage,
    id: Seq<char>,
    r1: Result<usize, GpioError>,
    r2: Result<usize, GpioError>,
)
    requires
        s0.wf(),
        get_or_create_spec(s0, s1, id, r1),
        get_or_create_spec(s1, s2, id, r2),
        r1 is Ok,
    ensures
        r2 == r1,
        s2 == s1,
        s2.handles()[r1->Ok_0 as int] == s1.handles()[r1->Ok_0 as int],
{
    let k1 = r1->Ok_0;
    assert(s1.ids()[k1 as int] == id);
    assert(s1.ids().contains(id));
    let k2 = r2->Ok_0;
    assert(s1.pins@[k1 as int].id@ == s1.ids()[k1 as int]);
    assert(s1.pins@[k2 as int].id@ == s1.ids()[k2 as int]);
}

/// Two identifiers on the same chip, requested in turn from a storage with
/// no chip open, leave that chip opened exactly once.
pub proof fn lemma_one_open_per_chip(
    s0: GpioStorage,
    s1: GpioStorage,
    s2: GpioStorage,
    a: Seq<char>,
    b: Seq<char>,
    ra: Result<usize, GpioError>,
    rb: Result<usize, GpioError>,
)
    requires
        s0.wf(),
        forall|c: int| 0 <= c < GPIO_CHIPS_N ==> !s0.chip_open(c),
        get_or_create_spec(s0, s1, a, ra),
        get_or_create_spec(s1, s2, b, rb),
        ra is Ok,
        rb is Ok,
        resolve_spec(a) is Ok,
        resolve_spec(b) is Ok,
        resolve_spec(a)->Ok_0.0 == resolve_spec(b)->Ok_0.0,
    ensures
        s2.chip_open(resolve_spec(a)->Ok_0.0 as int),
        s2.chip_opens(resolve_spec(a)->Ok_0.0 as int) == 1,
{
    let chip = resolve_spec(a)->Ok_0.0;
    if s0.ids().contains(a) {
        let i = choose|i: int| 0 <= i < s0.ids().len() && s0.ids()[i] == a;
        assert(s0.pins@[i].id@ == a);
        let r = resolve_spec(s0.pins@[i].id@);
        assert(s0.chips@[r->Ok_0.0 as int] is Some);
    }
    assert(s1.chip_open(chip as int));
    if !s1.ids().contains(b) {
        assert(s2.chip_open(chip as int) || s1.chip_open(chip as int));
    }
}


/// Driving a value onto a line changes the record of that line's value and
/// nothing else; a well-formed storage stays well formed.
pub proof fn lemma_drive(s: GpioStorage, line: int, v: u8)
    requires
        0 <= line < s.ids().len(),
    ensures
        s.drive_spec(line, v).ids() == s.ids(),
        s.drive_spec(line, v).handles() == s.handles(),
        s.drive_spec(line, v).requests() == s.requests(),
        s.drive_spec(line, v).driven() == s.driven().update(line, v),
        forall|c: int| #[trigger] s.drive_spec(line, v).chip_open(c) == s.chip_open(c),
        forall|c: int| #[trigger] s.drive_spec(line, v).chip_opens(c) == s.chip_opens(c),
        s.wf() ==> s.drive_spec(line, v).wf(),
{
}

/// A well-formed storage holds each identifier once.
pub proof fn lemma_unique_ids(s: GpioStorage)
    requires
        s.wf(),
    ensures
        unique_ids(s.ids()),
        s.requests().len() == s.ids().len(),
        s.driven().len() == s.ids().len(),
{
    assert forall|i: int, j: int| 0 <= i < j < s.ids().len() implies s.ids()[i] != s.ids()[j] by {
        assert(s.pins@[i].id@ != s.pins@[j].id@);
    }
}


/// Where `id` stands among `ids`.
pub open spec fn index_of_id(ids: Seq<Seq<char>>, id: Seq<char>) -> int {
    choose|k: int| 0 <= k < ids.len() && ids[k] == id
}

/// Among unique identifiers, the one place that holds `id` is its index.
pub proof fn lemma_index_of_id(ids: Seq<Seq<char>>, id: Seq<char>, k: int)
    requires
        unique_ids(ids),
        0 <= k < ids.len(),
        ids[k] == id,
    ensures
        index_of_id(ids, id) == k,
{
    let j = index_of_id(ids, id);
    assert(0 <= j < ids.len() && ids[j] == id);
    if j < k {
        assert(ids[j] != ids[k]);
    } else if k < j {
        assert(ids[k] != ids[j]);
    }
}

} // verus!
