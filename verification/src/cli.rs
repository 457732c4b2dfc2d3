//! The simulator's command line: the binary to run, the ISA string, and
//! initial register values.
use vstd::prelude::*;
use vstd::string::StrSliceExecFns;
use crate::text::push_char;

verus! {

/// What the command line asks for.
#[derive(Debug)]
pub struct SimConfig {
    pub binary_path: Option<String>,
    pub isa_string: String,
    /// Registers to set before the run, in the order given: (register, value).
    pub register_inits: Vec<(usize, u32)>,
    pub is_interactive: bool,
    pub is_newlib: bool,
}

/// The command line as the parser sees it.
pub struct ConfigView {
    pub binary_path: Option<Seq<char>>,
    pub isa_string: Seq<char>,
    pub register_inits: Seq<(usize, u32)>,
    pub is_interactive: bool,
    pub is_newlib: bool,
}

impl SimConfig {
    pub open spec fn view_config(&self) -> ConfigView {
        ConfigView {
            binary_path: match self.binary_path {
                Some(p) => Some(p@),
                None => None,
            },
            isa_string: self.isa_string@,
            register_inits: self.register_inits@,
            is_interactive: self.is_interactive,
            is_newlib: self.is_newlib,
        }
    }
}

/// The configuration of an empty command line.
pub open spec fn default_config() -> ConfigView {
    ConfigView {
        binary_path: None,
        isa_string: Seq::empty(),
        register_inits: Seq::empty(),
        is_interactive: false,
        is_newlib: false,
    }
}

impl Default for SimConfig {
    fn default() -> (c: Self)
        ensures
            c.view_config() == default_config(),
    {
        let c = SimConfig {
            binary_path: None,
            isa_string: String::new(),
            register_inits: Vec::new(),
            is_interactive: false,
            is_newlib: false,
        };
        assert(c.view_config().register_inits =~= Seq::<(usize, u32)>::empty());
        c
    }
}

/// Whether `c` is white space in the sense of Unicode's `White_Space`
/// property (what `str::trim` removes).
pub open spec fn is_white_space(c: char) -> bool {
    let u = c as u32;
    ||| 0x9 <= u <= 0xD
    ||| u == 0x20
    ||| u == 0x85
    ||| u == 0xA0
    ||| u == 0x1680
    ||| 0x2000 <= u <= 0x200A
    ||| u == 0x2028
    ||| u == 0x2029
    ||| u == 0x202F
    ||| u == 0x205F
    ||| u == 0x3000
}

/// `s` without leading white space.
pub open spec fn trim_start(s: Seq<char>) -> Seq<char>
    decreases s.len(),
{
    if s.len() > 0 && is_white_space(s[0]) {
        trim_start(s.drop_first())
    } else {
        s
    }
}

/// `s` without trailing white space.
pub open spec fn trim_end(s: Seq<char>) -> Seq<char>
    decreases s.len(),
{
    if s.len() > 0 && is_white_space(s.last()) {
        trim_end(s.drop_last())
    } else {
        s
    }
}

/// `s` without leading or trailing white space.
pub open spec fn trim(s: Seq<char>) -> Seq<char> {
    trim_end(trim_start(s))
}

/// Whether `s` begins with `p`.
pub open spec fn starts_with(s: Seq<char>, p: Seq<char>) -> bool {
    p.len() <= s.len() && s.subrange(0, p.len() as int) == p
}

/// `s` with every leading copy of `p` (nonempty) removed.
pub open spec fn trim_prefixes(s: Seq<char>, p: Seq<char>) -> Seq<char>
    decreases s.len(),
{
    if p.len() > 0 && starts_with(s, p) {
        trim_prefixes(s.subrange(p.len() as int, s.len() as int), p)
    } else {
        s
    }
}

/// The value of the digit `c` in base `radix` (10 or 16, letters in either case).
pub open spec fn digit_value(c: char, radix: nat) -> Option<nat> {
    let u = c as u32;
    if 0x30 <= u <= 0x39 {
        Some((u - 0x30) as nat)
    } else if radix == 16 && 0x61 <= u <= 0x66 {
        Some((u - 0x61 + 10) as nat)
    } else if radix == 16 && 0x41 <= u <= 0x46 {
        Some((u - 0x41 + 10) as nat)
    } else {
        None
    }
}

/// Whether every character of `s` is a digit in base `radix`.
pub open spec fn all_digits(s: Seq<char>, radix: nat) -> bool {
    forall|i: int| 0 <= i < s.len() ==> (#[trigger] digit_value(s[i], radix)) is Some
}

/// The number the digits `s` write in base `radix`.
pub open spec fn digits_value(s: Seq<char>, radix: nat) -> nat
    decreases s.len(),
{
    if s.len() == 0 {
        0
    } else {
        digits_value(s.drop_last(), radix) * radix + digit_value(s.last(), radix).unwrap()
    }
}

/// An unsigned number in base `radix` written as an optional `+` and at
/// least one digit; `None` for anything else.
pub open spec fn parse_digits(s: Seq<char>, radix: nat) -> Option<nat> {
    let body = if s.len() > 0 && s[0] == '+' {
        s.drop_first()
    } else {
        s
    };
    if body.len() > 0 && all_digits(body, radix) {
        Some(digits_value(body, radix))
    } else {
        None
    }
}

/// An unsigned number as `str::parse` and `from_str_radix` read it into a
/// type whose values lie below `limit`.
pub open spec fn parse_unsigned(s: Seq<char>, radix: nat, limit: nat) -> Option<nat> {
    match parse_digits(s, radix) {
        Some(v) => if v < limit {
            Some(v)
        } else {
            None
        },
        None => None,
    }
}

/// The characters of `s`.
fn chars_of(s: &str) -> (r: Vec<char>)
    ensures
        r@ == s@,
{
    let n = s.unicode_len();
    let mut v: Vec<char> = Vec::new();
    let mut i: usize = 0;
    while i < n
        invariant
            n == s@.len(),
            i <= n,
            v@ == s@.subrange(0, i as int),
        decreases n - i,
    {
        v.push(s.get_char(i));
        i = i + 1;
        assert(v@ =~= s@.subrange(0, i as int));
    }
    assert(v@ =~= s@);
    v
}

/// The string holding the characters `s[from..]`.
fn string_from(s: &Vec<char>, from: usize) -> (r: String)
    requires
        from <= s@.len(),
    ensures
        r@ == s@.subrange(from as int, s@.len() as int),
{
    let mut r = String::new();
    let mut i = from;
    while i < s.len()
        invariant
            from <= i <= s@.len(),
            r@ == s@.subrange(from as int, i as int),
        decreases s@.len() - i,
    {
        push_char(&mut r, s[i]);
        i = i + 1;
        assert(r@ =~= s@.subrange(from as int, i as int));
    }
    r
}

/// Whether `s[from..to]` begins with `p`.
fn starts_with_at(s: &Vec<char>, from: usize, to: usize, p: &str) -> (r: bool)
    requires
        from <= to <= s@.len(),
    ensures
        r == starts_with(s@.subrange(from as int, to as int), p@),
{
    let n = p.unicode_len();
    if n > to - from {
        return false;
    }
    let ghost part = s@.subrange(from as int, to as int);
    let mut i: usize = 0;
    while i < n
        invariant
            n == p@.len(),
            from <= to <= s@.len(),
            n <= to - from,
            part == s@.subrange(from as int, to as int),
            i <= n,
            forall|k: int| 0 <= k < i ==> part[k] == p@[k],
        decreases n - i,
    {
        let c = s[from + i];
        if c != p.get_char(i) {
            assert(part.subrange(0, n as int)[i as int] != p@[i as int]);
            return false;
        }
        i = i + 1;
    }
    assert(part.subrange(0, n as int) =~= p@);
    true
}

/// Whether `s[from..to]` is exactly `p`.
fn word_at(s: &Vec<char>, from: usize, to: usize, p: &str) -> (r: bool)
    requires
        from <= to <= s@.len(),
    ensures
        r == (s@.subrange(from as int, to as int) == p@),
{
    let b = starts_with_at(s, from, to, p);
    proof {
        let part = s@.subrange(from as int, to as int);
        if part.len() == p@.len() {
            assert(part.subrange(0, p@.len() as int) =~= part);
        }
    }
    b && to - from == p.unicode_len()
}

fn is_white(c: char) -> (r: bool)
    ensures
        r == is_white_space(c),
{
    let u = c as u32;
    (0x9 <= u && u <= 0xD) || u == 0x20 || u == 0x85 || u == 0xA0 || u == 0x1680 || (0x2000 <= u
        && u <= 0x200A) || u == 0x2028 || u == 0x2029 || u == 0x202F || u == 0x205F || u == 0x3000
}

/// `s[from..to]` trimmed, as the bounds of the part that remains.
fn trim_bounds(s: &Vec<char>, from: usize, to: usize) -> (r: (usize, usize))
    requires
        from <= to <= s@.len(),
    ensures
        from <= r.0 <= r.1 <= to,
        s@.subrange(r.0 as int, r.1 as int) == trim(s@.subrange(from as int, to as int)),
{
    let mut a = from;
    while a < to && is_white(s[a])
        invariant
            from <= a <= to <= s@.len(),
            trim_start(s@.subrange(from as int, to as int)) == trim_start(
                s@.subrange(a as int, to as int),
            ),
        decreases to - a,
    {
        assert(s@.subrange(a as int, to as int).drop_first() =~= s@.subrange(a + 1, to as int));
        a = a + 1;
    }
    proof {
        let t = s@.subrange(a as int, to as int);
        if a < to {
            assert(t[0] == s@[a as int]);
        }
        assert(trim_start(t) == t);
    }
    let mut b = to;
    while b > a && is_white(s[b - 1])
        invariant
            from <= a <= b <= to <= s@.len(),
            trim_end(s@.subrange(a as int, to as int)) == trim_end(s@.subrange(a as int, b as int)),
        decreases b - a,
    {
        assert(s@.subrange(a as int, b as int).drop_last() =~= s@.subrange(a as int, b - 1));
        b = b - 1;
    }
    proof {
        let t = s@.subrange(a as int, b as int);
        if a < b {
            assert(t.last() == s@[b - 1]);
        }
        assert(trim_end(t) == t);
    }
    (a, b)
}

/// Larger digit strings write larger numbers.
proof fn lemma_digits_value_prefix(s: Seq<char>, radix: nat, k: int)
    requires
        0 <= k <= s.len(),
        all_digits(s, radix),
        radix >= 1,
    ensures
        digits_value(s.subrange(0, k), radix) <= digits_value(s, radix),
    decreases s.len() - k,
{
    if k < s.len() {
        lemma_digits_value_prefix(s, radix, k + 1);
        let p = s.subrange(0, k + 1);
        assert(p.drop_last() =~= s.subrange(0, k));
        assert(p.last() == s[k]);
        assert(digit_value(s[k], radix) is Some);
        let v = digits_value(s.subrange(0, k), radix);
        assert(digits_value(p, radix) == v * radix + digit_value(s[k], radix).unwrap());
        assert(v * radix >= v) by (nonlinear_arith)
            requires
                radix >= 1,
        ;
    } else {
        assert(s.subrange(0, k) =~= s);
    }
}

/// Reads `s[from..to]` as an unsigned number in base `radix` below `limit`.
fn parse_number(s: &Vec<char>, from: usize, to: usize, radix: u32, limit: u64) -> (r: Option<u32>)
    requires
        from <= to <= s@.len(),
        radix == 10 || radix == 16,
        0 < limit <= 0x1_0000_0000,
    ensures
        r matches Some(v) ==> parse_unsigned(s@.subrange(from as int, to as int), radix as nat, limit as nat)
            == Some(v as nat),
        r is None ==> parse_unsigned(s@.subrange(from as int, to as int), radix as nat, limit as nat)
            is None,
{
    let ghost whole = s@.subrange(from as int, to as int);
    let start = if from < to && s[from] == '+' {
        from + 1
    } else {
        from
    };
    let ghost body = if whole.len() > 0 && whole[0] == '+' {
        whole.drop_first()
    } else {
        whole
    };
    proof {
        if from < to {
            assert(whole[0] == s@[from as int]);
        }
        assert(body =~= s@.subrange(start as int, to as int));
    }
    if start == to {
        return None;
    }
    let mut acc: u64 = 0;
    let mut i = start;
    assert(s@.subrange(start as int, start as int) =~= Seq::<char>::empty());
    while i < to
        invariant
            start <= i <= to <= s@.len(),
            body == s@.subrange(start as int, to as int),
            whole == s@.subrange(from as int, to as int),
            body == (if whole.len() > 0 && whole[0] == '+' {
                whole.drop_first()
            } else {
                whole
            }),
            radix == 10 || radix == 16,
            0 < limit <= 0x1_0000_0000,
            all_digits(s@.subrange(start as int, i as int), radix as nat),
            acc == digits_value(s@.subrange(start as int, i as int), radix as nat),
            acc < limit,
        decreases to - i,
    {
        let c = s[i];
        let u = c as u32;
        let d: u32 = if 0x30 <= u && u <= 0x39 {
            u - 0x30
        } else if radix == 16 && 0x61 <= u && u <= 0x66 {
            u - 0x61 + 10
        } else if radix == 16 && 0x41 <= u && u <= 0x46 {
            u - 0x41 + 10
        } else {
            assert(body[i - start] == c);
            assert(digit_value(body[i - start], radix as nat) is None);
            return None;
        };
        assert(acc * (radix as u64) <= 0x10_0000_0000) by (nonlinear_arith)
            requires
                acc < 0x1_0000_0000,
                radix <= 16,
        ;
        let next = acc * (radix as u64) + (d as u64);
        let ghost pre = s@.subrange(start as int, i as int);
        let ghost pre1 = s@.subrange(start as int, i + 1);
        proof {
            assert(pre1.drop_last() =~= pre);
            assert(pre1.last() == c);
            assert(digit_value(c, radix as nat) == Some(d as nat));
            assert(digits_value(pre1, radix as nat) == next);
            assert forall|k: int| 0 <= k < pre1.len() implies (#[trigger] digit_value(
                pre1[k],
                radix as nat,
            )) is Some by {
                if k < pre.len() {
                    assert(pre1[k] == pre[k]);
                }
            }
        }
        if next >= limit {
            proof {
                if all_digits(body, radix as nat) {
                    assert(body.subrange(0, i + 1 - start) =~= pre1);
                    lemma_digits_value_prefix(body, radix as nat, i + 1 - start);
                }
            }
            return None;
        }
        acc = next;
        i = i + 1;
    }
    proof {
        assert(s@.subrange(start as int, i as int) =~= body);
    }
    Some(acc as u32)
}

/// The register a `--setreg` name selects: an ABI name among `sp`, `ra`,
/// `gp`, `tp`, `t0`, `a0`, `a1`, `a7`, or `x` and a decimal number; 0 for none.
pub open spec fn setreg_register(name: Seq<char>) -> int {
    if name == "sp"@ || name == "x2"@ {
        2
    } else if name == "ra"@ || name == "x1"@ {
        1
    } else if name == "gp"@ || name == "x3"@ {
        3
    } else if name == "tp"@ || name == "x4"@ {
        4
    } else if name == "t0"@ || name == "x5"@ {
        5
    } else if name == "a0"@ || name == "x10"@ {
        10
    } else if name == "a1"@ || name == "x11"@ {
        11
    } else if name == "a7"@ || name == "x17"@ {
        17
    } else if name.len() > 0 && name[0] == 'x' {
        match parse_digits(name.drop_first(), 10) {
            Some(v) => v as int,
            None => 0,
        }
    } else {
        0
    }
}

/// The value a `--setreg` value text gives: hexadecimal after `0x` or `0X`,
/// decimal otherwise; 0 when it is not a number that fits 32 bits.
pub open spec fn setreg_value(v: Seq<char>) -> u32 {
    if starts_with(v, "0x"@) || starts_with(v, "0X"@) {
        match parse_unsigned(v.subrange(2, v.len() as int), 16, 0x1_0000_0000) {
            Some(n) => n as u32,
            None => 0,
        }
    } else {
        match parse_unsigned(v, 10, 0x1_0000_0000) {
            Some(n) => n as u32,
            None => 0,
        }
    }
}

/// The first index at or after `i` where `s` holds `c`; `s.len()` if none.
pub open spec fn index_from(s: Seq<char>, c: char, i: int) -> int
    decreases s.len() - i,
{
    if i >= s.len() {
        s.len() as int
    } else if s[i] == c {
        i
    } else {
        index_from(s, c, i + 1)
    }
}

/// `c` after the `--setreg` argument `kv` (`name=value`, split at the first
/// `=`): the pair is added when the name selects one of x1..x31.
pub open spec fn apply_setreg(c: ConfigView, kv: Seq<char>) -> ConfigView {
    let k = index_from(kv, '=', 0);
    if k < kv.len() {
        let reg = setreg_register(trim(kv.subrange(0, k)));
        let val = setreg_value(trim(kv.subrange(k + 1, kv.len() as int)));
        if 0 < reg < 32 {
            ConfigView { register_inits: c.register_inits.push((reg as usize, val)), ..c }
        } else {
            c
        }
    } else {
        c
    }
}

} // verus!

verus! {

/// The command line `args` read from position `i` on, into `c`.
pub open spec fn parse_from(args: Seq<Seq<char>>, i: int, c: ConfigView) -> ConfigView
    decreases args.len() - i,
{
    if i < 0 || i >= args.len() {
        c
    } else {
        let a = args[i];
        let has_next = i + 1 < args.len();
        if a == "--newlib"@ || a == "-n"@ {
            let c2 = ConfigView { is_newlib: true, ..c };
            if has_next && !starts_with(args[i + 1], "-"@) {
                parse_from(args, i + 2, ConfigView { binary_path: Some(args[i + 1]), ..c2 })
            } else {
                parse_from(args, i + 1, c2)
            }
        } else if a == "--isa"@ {
            if has_next {
                parse_from(args, i + 2, ConfigView { isa_string: args[i + 1], ..c })
            } else {
                parse_from(args, i + 1, c)
            }
        } else if starts_with(a, "--setreg"@) {
            if starts_with(a, "--setreg="@) {
                parse_from(
                    args,
                    i + 1,
                    apply_setreg(c, a.subrange("--setreg="@.len() as int, a.len() as int)),
                )
            } else if has_next {
                parse_from(args, i + 2, apply_setreg(c, args[i + 1]))
            } else {
                parse_from(args, i + 1, c)
            }
        } else if a == "--interactive"@ {
            parse_from(args, i + 1, ConfigView { is_interactive: true, ..c })
        } else if starts_with(a, "-"@) && c.binary_path is None {
            parse_from(
                args,
                i + 1,
                ConfigView {
                    binary_path: Some(trim_prefixes(trim_prefixes(a, "/"@), "working/"@)),
                    ..c
                },
            )
        } else {
            parse_from(args, i + 1, c)
        }
    }
}

/// Every register a configuration sets is one of x1..x31.
pub open spec fn inits_in_range(c: ConfigView) -> bool {
    forall|k: int| 0 <= k < c.register_inits.len() ==> 0 < #[trigger] c.register_inits[k].0 < 32
}

/// Reading arguments never adds a register outside x1..x31.
proof fn lemma_parse_inits_in_range(args: Seq<Seq<char>>, i: int, c: ConfigView)
    requires
        inits_in_range(c),
    ensures
        inits_in_range(parse_from(args, i, c)),
    decreases args.len() - i,
{
    if i < 0 || i >= args.len() {
    } else {
        let a = args[i];
        let has_next = i + 1 < args.len();
        if a == "--newlib"@ || a == "-n"@ {
            let c2 = ConfigView { is_newlib: true, ..c };
            lemma_parse_inits_in_range(args, i + 1, c2);
            if has_next {
                lemma_parse_inits_in_range(args, i + 2, ConfigView { binary_path: Some(args[i + 1]), ..c2 });
            }
        } else if a == "--isa"@ {
            lemma_parse_inits_in_range(args, i + 1, c);
            if has_next {
                lemma_parse_inits_in_range(args, i + 2, ConfigView { isa_string: args[i + 1], ..c });
            }
        } else if starts_with(a, "--setreg"@) {
            lemma_parse_inits_in_range(args, i + 1, c);
            let kv1 = a.subrange("--setreg="@.len() as int, a.len() as int);
            assert(inits_in_range(apply_setreg(c, kv1)));
            lemma_parse_inits_in_range(args, i + 1, apply_setreg(c, kv1));
            if has_next {
                assert(inits_in_range(apply_setreg(c, args[i + 1])));
                lemma_parse_inits_in_range(args, i + 2, apply_setreg(c, args[i + 1]));
            }
        } else if a == "--interactive"@ {
            lemma_parse_inits_in_range(args, i + 1, ConfigView { is_interactive: true, ..c });
        } else {
            lemma_parse_inits_in_range(args, i + 1, c);
            lemma_parse_inits_in_range(
                args,
                i + 1,
                ConfigView {
                    binary_path: Some(trim_prefixes(trim_prefixes(a, "/"@), "working/"@)),
                    ..c
                },
            );
        }
    }
}

/// The command-line arguments as character sequences.
pub open spec fn args_view(args: &[String]) -> Seq<Seq<char>> {
    args@.map_values(|a: String| a@)
}

/// The register a `--setreg` name `s[a..b]` selects, or 0 when it selects
/// none of x1..x31.
fn setreg_register_of(s: &Vec<char>, a: usize, b: usize) -> (r: usize)
    requires
        a <= b <= s@.len(),
    ensures
        (0 < r < 32) == (0 < setreg_register(s@.subrange(a as int, b as int)) < 32),
        0 < r < 32 ==> r == setreg_register(s@.subrange(a as int, b as int)),
{
    if word_at(s, a, b, "sp") || word_at(s, a, b, "x2") {
        2
    } else if word_at(s, a, b, "ra") || word_at(s, a, b, "x1") {
        1
    } else if word_at(s, a, b, "gp") || word_at(s, a, b, "x3") {
        3
    } else if word_at(s, a, b, "tp") || word_at(s, a, b, "x4") {
        4
    } else if word_at(s, a, b, "t0") || word_at(s, a, b, "x5") {
        5
    } else if word_at(s, a, b, "a0") || word_at(s, a, b, "x10") {
        10
    } else if word_at(s, a, b, "a1") || word_at(s, a, b, "x11") {
        11
    } else if word_at(s, a, b, "a7") || word_at(s, a, b, "x17") {
        17
    } else if a < b && s[a] == 'x' {
        proof {
            assert(s@.subrange(a as int, b as int).drop_first() =~= s@.subrange(a + 1, b as int));
        }
        match parse_number(s, a + 1, b, 10, 0x1_0000_0000) {
            Some(v) => v as usize,
            None => 0,
        }
    } else {
        0
    }
}

/// The value a `--setreg` value text `s[a..b]` gives.
fn setreg_value_of(s: &Vec<char>, a: usize, b: usize) -> (r: u32)
    requires
        a <= b <= s@.len(),
    ensures
        r == setreg_value(s@.subrange(a as int, b as int)),
{
    let hex = starts_with_at(s, a, b, "0x") || starts_with_at(s, a, b, "0X");
    if hex {
        proof {
            reveal_strlit("0x");
            reveal_strlit("0X");
            assert(s@.subrange(a as int, b as int).subrange(2, (b - a) as int) =~= s@.subrange(
                a + 2,
                b as int,
            ));
        }
        match parse_number(s, a + 2, b, 16, 0x1_0000_0000) {
            Some(v) => v,
            None => 0,
        }
    } else {
        match parse_number(s, a, b, 10, 0x1_0000_0000) {
            Some(v) => v,
            None => 0,
        }
    }
}

/// `s[from..]` with every leading copy of `p` removed, as a start index.
fn skip_prefixes(s: &Vec<char>, from: usize, p: &str) -> (r: usize)
    requires
        from <= s@.len(),
    ensures
        from <= r <= s@.len(),
        s@.subrange(r as int, s@.len() as int) == trim_prefixes(
            s@.subrange(from as int, s@.len() as int),
            p@,
        ),
{
    let n = p.unicode_len();
    let mut pos = from;
    while n > 0 && starts_with_at(s, pos, s.len(), p)
        invariant
            from <= pos <= s@.len(),
            n == p@.len(),
            trim_prefixes(s@.subrange(from as int, s@.len() as int), p@) == trim_prefixes(
                s@.subrange(pos as int, s@.len() as int),
                p@,
            ),
        decreases s@.len() - pos,
    {
        assert(s@.subrange(pos as int, s@.len() as int).subrange(n as int, (s@.len() - pos) as int)
            =~= s@.subrange(pos + n, s@.len() as int));
        pos = pos + n;
    }
    pos
}

impl SimConfig {
    /// Apply one `--setreg` argument, `name=value`.
    fn parse_setreg(config: &mut SimConfig, kv: &str)
        ensures
            final(config).view_config() == apply_setreg(old(config).view_config(), kv@),
    {
        let s = chars_of(kv);
        let mut k: usize = 0;
        while k < s.len() && s[k] != '='
            invariant
                k <= s@.len(),
                s@ == kv@,
                index_from(s@, '=', 0) == index_from(s@, '=', k as int),
            decreases s@.len() - k,
        {
            k = k + 1;
        }
        if k == s.len() {
            return;
        }
        let (a, b) = trim_bounds(&s, 0, k);
        let reg_idx = setreg_register_of(&s, a, b);
        let (c, d) = trim_bounds(&s, k + 1, s.len());
        let val = setreg_value_of(&s, c, d);
        if reg_idx > 0 && reg_idx < 32 {
            config.register_inits.push((reg_idx, val));
        }
    }

    /// Read the command line.
    pub fn parse_args(args: &[String]) -> (c: Self)
        ensures
            c.view_config() == parse_from(args_view(args), 0, default_config()),
            inits_in_range(c.view_config()),
    {
        let ghost av = args_view(args);
        let mut config = SimConfig::default();
        let mut i: usize = 0;
        while i < args.len()
            invariant
                i <= args@.len(),
                av == args_view(args),
                av.len() == args@.len(),
                parse_from(av, 0, default_config()) == parse_from(av, i as int, config.view_config()),
            decreases args@.len() - i,
        {
            let arg = chars_of(args[i].as_str());
            let len = arg.len();
            let has_next = i + 1 < args.len();
            let ghost c0 = config.view_config();
            proof {
                assert(av[i as int] == arg@);
            }
            if word_at(&arg, 0, len, "--newlib") || word_at(&arg, 0, len, "-n") {
                config.is_newlib = true;
                if has_next {
                    let next = chars_of(args[i + 1].as_str());
                    proof {
                        assert(av[i + 1] == next@);
                        assert(next@.subrange(0, next@.len() as int) =~= next@);
                    }
                    if !starts_with_at(&next, 0, next.len(), "-") {
                        config.binary_path = Some(args[i + 1].clone());
                        i = i + 1;
                    }
                }
            } else if word_at(&arg, 0, len, "--isa") {
                if has_next {
                    config.isa_string = args[i + 1].clone();
                    proof {
                        assert(av[i + 1] == args@[i + 1]@);
                    }
                    i = i + 1;
                }
            } else if starts_with_at(&arg, 0, len, "--setreg") {
                proof {
                    assert(arg@.subrange(0, len as int) =~= arg@);
                }
                if starts_with_at(&arg, 0, len, "--setreg=") {
                    let n = "--setreg=".unicode_len();
                    let kv = string_from(&arg, n);
                    Self::parse_setreg(&mut config, kv.as_str());
                } else if has_next {
                    proof {
                        assert(av[i + 1] == args@[i + 1]@);
                    }
                    Self::parse_setreg(&mut config, args[i + 1].as_str());
                    i = i + 1;
                }
            } else if word_at(&arg, 0, len, "--interactive") {
                config.is_interactive = true;
            } else if starts_with_at(&arg, 0, len, "-") && config.binary_path.is_none() {
                let p1 = skip_prefixes(&arg, 0, "/");
                let p2 = skip_prefixes(&arg, p1, "working/");
                proof {
                    assert(arg@.subrange(0, len as int) =~= arg@);
                }
                config.binary_path = Some(string_from(&arg, p2));
            }
            proof {
                assert(arg@.subrange(0, len as int) =~= arg@);
            }
            i = i + 1;
        }
        proof {
            assert(inits_in_range(default_config()));
            lemma_parse_inits_in_range(av, 0, default_config());
        }
        config
    }
}

} // verus!

verus! {

/// Each ABI register name that `--setreg` accepts selects the same register
/// as its `xN` form: `ra` x1, `sp` x2, `gp` x3, `tp` x4, `t0` x5, `a0` x10,
/// `a1` x11, `a7` x17.
pub proof fn law_setreg_abi_names()
    ensures
        setreg_register("ra"@) == 1 && setreg_register("x1"@) == 1,
        setreg_register("sp"@) == 2 && setreg_register("x2"@) == 2,
        setreg_register("gp"@) == 3 && setreg_register("x3"@) == 3,
        setreg_register("tp"@) == 4 && setreg_register("x4"@) == 4,
        setreg_register("t0"@) == 5 && setreg_register("x5"@) == 5,
        setreg_register("a0"@) == 10 && setreg_register("x10"@) == 10,
        setreg_register("a1"@) == 11 && setreg_register("x11"@) == 11,
        setreg_register("a7"@) == 17 && setreg_register("x17"@) == 17,
{
    reveal_strlit("sp");
    assert("sp"@.len() == 2 && "sp"@[0] == 's' && "sp"@[1] == 'p');
    reveal_strlit("x2");
    assert("x2"@.len() == 2 && "x2"@[0] == 'x' && "x2"@[1] == '2');
    reveal_strlit("ra");
    assert("ra"@.len() == 2 && "ra"@[0] == 'r' && "ra"@[1] == 'a');
    reveal_strlit("x1");
    assert("x1"@.len() == 2 && "x1"@[0] == 'x' && "x1"@[1] == '1');
    reveal_strlit("gp");
    assert("gp"@.len() == 2 && "gp"@[0] == 'g' && "gp"@[1] == 'p');
    reveal_strlit("x3");
    assert("x3"@.len() == 2 && "x3"@[0] == 'x' && "x3"@[1] == '3');
    reveal_strlit("tp");
    assert("tp"@.len() == 2 && "tp"@[0] == 't' && "tp"@[1] == 'p');
    reveal_strlit("x4");
    assert("x4"@.len() == 2 && "x4"@[0] == 'x' && "x4"@[1] == '4');
    reveal_strlit("t0");
    assert("t0"@.len() == 2 && "t0"@[0] == 't' && "t0"@[1] == '0');
    reveal_strlit("x5");
    assert("x5"@.len() == 2 && "x5"@[0] == 'x' && "x5"@[1] == '5');
    reveal_strlit("a0");
    assert("a0"@.len() == 2 && "a0"@[0] == 'a' && "a0"@[1] == '0');
    reveal_strlit("x10");
    assert("x10"@.len() == 3 && "x10"@[0] == 'x' && "x10"@[1] == '1' && "x10"@[2] == '0');
    reveal_strlit("a1");
    assert("a1"@.len() == 2 && "a1"@[0] == 'a' && "a1"@[1] == '1');
    reveal_strlit("x11");
    assert("x11"@.len() == 3 && "x11"@[0] == 'x' && "x11"@[1] == '1' && "x11"@[2] == '1');
    reveal_strlit("a7");
    assert("a7"@.len() == 2 && "a7"@[0] == 'a' && "a7"@[1] == '7');
    reveal_strlit("x17");
    assert("x17"@.len() == 3 && "x17"@[0] == 'x' && "x17"@[1] == '1' && "x17"@[2] == '7');
}

} // verus!
