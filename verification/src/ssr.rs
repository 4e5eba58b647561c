//! Server-side rendering: backend state, Node version checks, client
//! limits, retry schedules, and the state-and-event steps of the startup
//! health probe and of the managed Node process's supervisor.

use vstd::prelude::*;

verus! {

broadcast use vstd::string::group_string_axioms;

/// The active SSR backend implementation.
#[derive(Clone, Copy, Debug, PartialEq, Eq, Structural)]
pub enum SsrBackendKind {
    /// The Vite development server.
    Vite,
    /// A managed Node child process.
    ManagedNode,
    /// An externally supervised Node server.
    External,
}

/// A stable classification for an SSR runtime failure.
#[derive(Clone, Copy, Debug, PartialEq, Eq, Structural)]
pub enum SsrFailureKind {
    Unavailable,
    Overloaded,
    Timeout,
    Transport,
    InvalidResponse,
    Render,
    ResponseTooLarge,
    ProcessExited,
}

/// The latest locally recorded SSR backend state.
#[derive(Clone, Copy, Debug, PartialEq, Eq, Structural)]
pub enum SsrHealth {
    Disabled,
    Starting { backend: SsrBackendKind },
    Ready { backend: SsrBackendKind },
    Degraded { backend: SsrBackendKind, last_failure: SsrFailureKind },
    Unavailable { backend: SsrBackendKind },
}

/// A request-local override of the application SSR policy.
#[derive(Clone, Copy, Debug, PartialEq, Eq, Structural)]
pub enum SsrOverride {
    /// SSR is explicitly enabled.
    Enabled,
    /// SSR is explicitly disabled.
    Disabled,
}

/// Whether SSR is on for a route: the route's override when it has one,
/// else the application default.
pub fn ssr_enabled(default: bool, route: Option<SsrOverride>) -> (b: bool)
    ensures
        b == match route {
            Some(SsrOverride::Enabled) => true,
            Some(SsrOverride::Disabled) => false,
            None => default,
        },
{
    match route {
        Some(SsrOverride::Enabled) => true,
        Some(SsrOverride::Disabled) => false,
        None => default,
    }
}

/// Whether a response is rendered on the server: an SSR runtime exists, the
/// request is a full-page (non-Inertia) GET, and SSR is on for the route.
pub fn should_render_ssr(has_runtime: bool, is_inertia: bool, is_get: bool, enabled: bool) -> (b: bool)
    ensures
        b == (has_runtime && !is_inertia && is_get && enabled),
{
    has_runtime && !is_inertia && is_get && enabled
}

/// The outcome recorded when SSR fails and the page falls back to
/// client-side rendering.
pub fn fallback_outcome(kind: SsrFailureKind) -> (s: &'static str)
    ensures
        s@ == match kind {
            SsrFailureKind::Unavailable => "fallback_unavailable"@,
            SsrFailureKind::Overloaded => "fallback_overloaded"@,
            SsrFailureKind::Timeout => "fallback_timeout"@,
            SsrFailureKind::Transport => "fallback_transport"@,
            SsrFailureKind::InvalidResponse | SsrFailureKind::ResponseTooLarge => "fallback_invalid_response"@,
            _ => "fallback_render"@,
        },
{
    match kind {
        SsrFailureKind::Unavailable => "fallback_unavailable",
        SsrFailureKind::Overloaded => "fallback_overloaded",
        SsrFailureKind::Timeout => "fallback_timeout",
        SsrFailureKind::Transport => "fallback_transport",
        SsrFailureKind::InvalidResponse | SsrFailureKind::ResponseTooLarge => "fallback_invalid_response",
        _ => "fallback_render",
    }
}

/// A Node.js version.
#[derive(Clone, Copy, Debug, PartialEq, Eq, Structural)]
pub struct NodeVersion {
    pub major: u64,
    pub minor: u64,
    pub patch: u64,
}

/// The value of a string of decimal digits.
pub open spec fn digits_value(s: Seq<char>) -> nat
    decreases s.len(),
{
    if s.len() == 0 {
        0
    } else {
        digits_value(s.drop_last()) * 10 + ((s.last() as nat) - ('0' as nat)) as nat
    }
}

/// Whether every character of `s` is a decimal digit.
pub open spec fn all_digits(s: Seq<char>) -> bool {
    forall|i: int| 0 <= i < s.len() ==> '0' <= #[trigger] s[i] && s[i] <= '9'
}

/// The unsigned integer `s` denotes, as `str::parse::<u64>` reads it: an
/// optional `+` and at least one digit, with a value that fits.
pub open spec fn parsed_u64(s: Seq<char>) -> Option<u64> {
    let d = if s.len() > 0 && s[0] == '+' {
        s.drop_first()
    } else {
        s
    };
    if d.len() > 0 && all_digits(d) && digits_value(d) <= u64::MAX {
        Some(digits_value(d) as u64)
    } else {
        None
    }
}

proof fn lemma_digits_monotone(s: Seq<char>, i: int)
    requires
        all_digits(s),
        0 <= i <= s.len(),
    ensures
        digits_value(s.take(i)) <= digits_value(s),
    decreases s.len() - i,
{
    if i < s.len() {
        lemma_digits_monotone(s, i + 1);
        assert(s.take(i + 1).drop_last() =~= s.take(i));
        assert('0' <= s[i] && s[i] <= '9');
    } else {
        assert(s.take(i) =~= s);
    }
}

/// Parses an unsigned decimal integer as `str::parse::<u64>` does.
pub fn parse_u64(s: &str) -> (r: Option<u64>)
    ensures
        r == parsed_u64(s@),
{
    let c = crate::text::chars_of(s);
    let start: usize = if c.len() > 0 && c[0] == '+' {
        1
    } else {
        0
    };
    let ghost d = if s@.len() > 0 && s@[0] == '+' {
        s@.drop_first()
    } else {
        s@
    };
    assert(d =~= c@.subrange(start as int, c@.len() as int));
    if start == c.len() {
        return None;
    }
    let mut value: u64 = 0;
    let mut i: usize = start;
    while i < c.len()
        invariant
            start <= i <= c.len(),
            start < c.len(),
            c@ == s@,
            d == (if s@.len() > 0 && s@[0] == '+' { s@.drop_first() } else { s@ }),
            d == c@.subrange(start as int, c@.len() as int),
            all_digits(c@.subrange(start as int, i as int)),
            value as nat == digits_value(c@.subrange(start as int, i as int)),
        decreases c.len() - i,
    {
        let ch = c[i];
        assert(c@.subrange(start as int, i + 1).drop_last() =~= c@.subrange(start as int, i as int));
        if !('0' <= ch && ch <= '9') {
            assert(!all_digits(d)) by {
                assert(d[i - start] == ch);
            }
            return None;
        }
        let digit = (ch as u32 - '0' as u32) as u64;
        if value > (u64::MAX - digit) / 10 {
            proof {
                assert(all_digits(c@.subrange(start as int, i + 1)));
                assert(digits_value(c@.subrange(start as int, i + 1)) == value * 10 + digit);
                assert(value * 10 + digit > u64::MAX) by (nonlinear_arith)
                    requires
                        value > (u64::MAX - digit) / 10,
                        digit <= 9,
                ;
                if all_digits(d) {
                    assert(d.take(i + 1 - start) =~= c@.subrange(start as int, i + 1));
                    lemma_digits_monotone(d, i + 1 - start);
                }
            }
            return None;
        }
        value = value * 10 + digit;
        i = i + 1;
    }
    assert(c@.subrange(start as int, c@.len() as int) =~= d);
    Some(value)
}

/// A Node version string trimmed, with one leading `v` dropped.
pub open spec fn version_digits(value: Seq<char>) -> Seq<char> {
    let t = crate::text::trim(value);
    if t.len() > 0 && t[0] == 'v' {
        t.drop_first()
    } else {
        t
    }
}

/// How a Node version string reads: trimmed, one leading `v` dropped, then
/// major, minor, and patch separated by `.`, with missing parts read as `0`
/// and anything after a `-` in the patch ignored.
pub open spec fn node_version_of(value: Seq<char>) -> Option<NodeVersion> {
    let v = version_digits(value);
    let parts = crate::text::split_on(v, '.');
    let minor_text = if parts.len() > 1 {
        parts[1]
    } else {
        seq!['0']
    };
    let patch_text = if parts.len() > 2 {
        crate::text::split_on(parts[2], '-')[0]
    } else {
        seq!['0']
    };
    match (parsed_u64(parts[0]), parsed_u64(minor_text), parsed_u64(patch_text)) {
        (Some(major), Some(minor), Some(patch)) => Some(NodeVersion { major, minor, patch }),
        _ => None,
    }
}

/// Parses the output of `node --version`; `Err` carries the text it could
/// not read.
pub fn parse_node_version(value: &str) -> (r: Result<NodeVersion, String>)
    ensures
        match r {
            Ok(v) => node_version_of(value@) == Some(v),
            Err(text) => node_version_of(value@) is None && text@ == version_digits(value@),
        },
{
    let t = crate::text::trimmed(value);
    let tc = crate::text::chars_of(t.as_str());
    let v = if tc.len() > 0 && tc[0] == 'v' {
        crate::text::string_from(&tc, 1, tc.len())
    } else {
        t
    };
    proof {
        let tt = crate::text::trim(value@);
        if tc@.len() > 0 && tc@[0] == 'v' {
            assert(tc@.subrange(1, tc@.len() as int) =~= tt.drop_first());
        }
    }
    let parts = crate::text::split_pieces_of(v.as_str(), '.');
    proof {
        crate::text::lemma_split_on_nonempty(v@, '.');
    }
    assert(crate::text::strs(parts@)[0] == parts@[0]@);
    let major = parse_u64(parts[0].as_str());
    let minor = if parts.len() > 1 {
        assert(crate::text::strs(parts@)[1] == parts@[1]@);
        parse_u64(parts[1].as_str())
    } else {
        proof {
            reveal_strlit("0");
            assert("0"@ =~= seq!['0']);
        }
        parse_u64("0")
    };
    let patch = if parts.len() > 2 {
        assert(crate::text::strs(parts@)[2] == parts@[2]@);
        let sub = crate::text::split_pieces_of(parts[2].as_str(), '-');
        proof {
            crate::text::lemma_split_on_nonempty(parts@[2]@, '-');
        }
        assert(crate::text::strs(sub@)[0] == sub@[0]@);
        parse_u64(sub[0].as_str())
    } else {
        proof {
            reveal_strlit("0");
            assert("0"@ =~= seq!['0']);
        }
        parse_u64("0")
    };
    match (major, minor, patch) {
        (Some(major), Some(minor), Some(patch)) => Ok(NodeVersion { major, minor, patch }),
        _ => Err(v),
    }
}

/// Splitting around one separator splits each side apart.
proof fn lemma_split_around(x: Seq<char>, b: Seq<char>, sep: char)
    ensures
        crate::text::split_on(x + seq![sep] + b, sep) =~= crate::text::split_on(x, sep) + crate::text::split_on(
            b,
            sep,
        ),
    decreases b.len(),
{
    let y = x + seq![sep] + b;
    if b.len() == 0 {
        assert(y.drop_last() =~= x);
        assert(crate::text::split_on(b, sep) =~= seq![Seq::<char>::empty()]);
    } else {
        let b1 = b.drop_last();
        lemma_split_around(x, b1, sep);
        crate::text::lemma_split_on_nonempty(b1, sep);
        assert(y.drop_last() =~= x + seq![sep] + b1);
        assert(y.last() == b.last());
    }
}

/// Text without the separator is one piece.
proof fn lemma_split_single(a: Seq<char>, sep: char)
    requires
        forall|i: int| 0 <= i < a.len() ==> a[i] != sep,
    ensures
        crate::text::split_on(a, sep) =~= seq![a],
    decreases a.len(),
{
    if a.len() > 0 {
        let a1 = a.drop_last();
        assert forall|i: int| 0 <= i < a1.len() implies a1[i] != sep by {
            assert(a1[i] == a[i]);
        }
        lemma_split_single(a1, sep);
        assert(a[a.len() - 1] != sep);
        assert(a1.push(a.last()) =~= a);
        let rest = crate::text::split_on(a1, sep);
        assert(rest.update(rest.len() - 1, rest.last().push(a.last())) =~= seq![a]);
    } else {
        assert(a =~= Seq::<char>::empty());
    }
}

/// A digit is not whitespace.
proof fn lemma_digit_not_ws(c: char)
    requires
        '0' <= c && c <= '9',
    ensures
        !crate::text::is_ws(c),
{
}

/// Trailing whitespace is trimmed off the end, and nothing else.
proof fn lemma_trim_end_ws(s: Seq<char>, w: Seq<char>)
    requires
        s.len() > 0,
        !crate::text::is_ws(s.last()),
        forall|i: int| 0 <= i < w.len() ==> crate::text::is_ws(#[trigger] w[i]),
    ensures
        crate::text::trim_end(s + w) == s,
    decreases w.len(),
{
    if w.len() == 0 {
        assert(s + w =~= s);
    } else {
        let w1 = w.drop_last();
        assert forall|i: int| 0 <= i < w1.len() implies crate::text::is_ws(#[trigger] w1[i]) by {
            assert(w1[i] == w[i]);
        }
        lemma_trim_end_ws(s, w1);
        assert((s + w).drop_last() =~= s + w1);
        assert((s + w).last() == w[w.len() - 1]);
    }
}

/// The version digits of `v` + `x` + trailing whitespace are `x`, when `x`
/// neither starts nor ends with whitespace.
proof fn lemma_version_digits_of(x: Seq<char>, w: Seq<char>)
    requires
        x.len() > 0,
        !crate::text::is_ws(x.last()),
        forall|i: int| 0 <= i < w.len() ==> crate::text::is_ws(#[trigger] w[i]),
    ensures
        version_digits(seq!['v'] + x + w) == x,
{
    let s = seq!['v'] + x;
    assert(!crate::text::is_ws('v'));
    assert((s + w)[0] == 'v');
    assert(crate::text::trim_start(s + w) == s + w);
    assert(s.last() == x.last());
    lemma_trim_end_ws(s, w);
    assert(s.drop_first() =~= x);
}

/// `node --version` prints `v`, then the version, then a line break: the
/// error text of an unreadable version is what follows the `v`, without
/// the trailing whitespace.
pub proof fn law_version_text_follows_the_v(x: Seq<char>, w: Seq<char>)
    requires
        x.len() > 0,
        !crate::text::is_ws(x.last()),
        forall|i: int| 0 <= i < w.len() ==> crate::text::is_ws(#[trigger] w[i]),
    ensures
        version_digits(seq!['v'] + x + w) == x,
{
    lemma_version_digits_of(x, w);
}

/// Digits are neither separators nor whitespace.
proof fn lemma_digits_plain(a: Seq<char>)
    requires
        all_digits(a),
    ensures
        forall|i: int| 0 <= i < a.len() ==> #[trigger] a[i] != '.' && a[i] != '-' && a[i] != '+' && !crate::text::is_ws(
            a[i],
        ),
{
    assert forall|i: int| 0 <= i < a.len() implies #[trigger] a[i] != '.' && a[i] != '-' && a[i] != '+'
        && !crate::text::is_ws(a[i]) by {
        assert('0' <= a[i] && a[i] <= '9');
        lemma_digit_not_ws(a[i]);
    }
}

/// `node --version` output `v<major>.<minor>.<patch>`, optionally followed by
/// a `-` pre-release suffix without dots, then by trailing whitespace such
/// as the line break, parses to the decimal values of the three digit runs;
/// in particular the patch is the digits before the `-`.
pub proof fn law_node_version_reads_each_part(
    a: Seq<char>,
    b: Seq<char>,
    c: Seq<char>,
    suffix: Seq<char>,
    w: Seq<char>,
)
    requires
        a.len() > 0 && all_digits(a) && digits_value(a) <= u64::MAX,
        b.len() > 0 && all_digits(b) && digits_value(b) <= u64::MAX,
        c.len() > 0 && all_digits(c) && digits_value(c) <= u64::MAX,
        suffix.len() == 0 || (suffix[0] == '-' && !crate::text::is_ws(suffix.last())),
        forall|i: int| 0 <= i < suffix.len() ==> suffix[i] != '.',
        forall|i: int| 0 <= i < w.len() ==> crate::text::is_ws(#[trigger] w[i]),
    ensures
        node_version_of(seq!['v'] + a + seq!['.'] + b + seq!['.'] + c + suffix + w) == Some(
            NodeVersion {
                major: digits_value(a) as u64,
                minor: digits_value(b) as u64,
                patch: digits_value(c) as u64,
            },
        ),
{
    lemma_digits_plain(a);
    lemma_digits_plain(b);
    lemma_digits_plain(c);
    let v = a + seq!['.'] + b + seq!['.'] + (c + suffix);
    if suffix.len() == 0 {
        assert(v.last() == c[c.len() - 1]);
    } else {
        assert(v.last() == suffix.last());
    }
    lemma_version_digits_of(v, w);
    assert(seq!['v'] + a + seq!['.'] + b + seq!['.'] + c + suffix + w =~= seq!['v'] + v + w);
    assert(version_digits(seq!['v'] + a + seq!['.'] + b + seq!['.'] + c + suffix + w) == v);
    assert forall|i: int| 0 <= i < (c + suffix).len() implies (c + suffix)[i] != '.' by {
        if i >= c.len() {
            assert((c + suffix)[i] == suffix[i - c.len()]);
        }
    }
    lemma_split_single(a, '.');
    lemma_split_single(b, '.');
    lemma_split_single(c + suffix, '.');
    lemma_split_single(c, '-');
    lemma_split_around(a + seq!['.'] + b, c + suffix, '.');
    lemma_split_around(a, b, '.');
    let parts = crate::text::split_on(v, '.');
    assert(parts =~= seq![a, b, c + suffix]);
    if suffix.len() == 0 {
        assert(c + suffix =~= c);
    } else {
        let rest = suffix.drop_first();
        assert(c + suffix =~= c + seq!['-'] + rest);
        lemma_split_around(c, rest, '-');
        crate::text::lemma_split_on_nonempty(rest, '-');
    }
    assert(crate::text::split_on(parts[2], '-')[0] == c);
    assert(parsed_u64(a) == Some(digits_value(a) as u64));
    assert(parsed_u64(b) == Some(digits_value(b) as u64));
    assert(parsed_u64(c) == Some(digits_value(c) as u64));
}

/// Missing parts read as `0`: `v<major>` is `major.0.0` and
/// `v<major>.<minor>` is `major.minor.0`.
pub proof fn law_node_version_missing_parts_are_zero(a: Seq<char>, b: Seq<char>)
    requires
        a.len() > 0 && all_digits(a) && digits_value(a) <= u64::MAX,
        b.len() > 0 && all_digits(b) && digits_value(b) <= u64::MAX,
    ensures
        node_version_of(seq!['v'] + a) == Some(
            NodeVersion { major: digits_value(a) as u64, minor: 0, patch: 0 },
        ),
        node_version_of(seq!['v'] + a + seq!['.'] + b) == Some(
            NodeVersion { major: digits_value(a) as u64, minor: digits_value(b) as u64, patch: 0 },
        ),
{
    lemma_digits_plain(a);
    lemma_digits_plain(b);
    let none = Seq::<char>::empty();
    lemma_version_digits_of(a, none);
    assert(seq!['v'] + a + none =~= seq!['v'] + a);
    lemma_split_single(a, '.');
    lemma_split_single(b, '.');
    assert(parsed_u64(a) == Some(digits_value(a) as u64));
    assert(parsed_u64(b) == Some(digits_value(b) as u64));
    let zero = seq!['0'];
    assert(all_digits(zero));
    assert(digits_value(zero.drop_last()) == 0);
    assert(digits_value(zero) == 0);
    assert(parsed_u64(zero) == Some(0u64));
    let ab = a + seq!['.'] + b;
    assert(ab.last() == b[b.len() - 1]);
    lemma_version_digits_of(ab, none);
    assert(seq!['v'] + ab + none =~= seq!['v'] + a + seq!['.'] + b);
    lemma_split_around(a, b, '.');
    assert(crate::text::split_on(ab, '.') =~= seq![a, b]);
}

/// A patch part that is not a decimal number is refused: with anything but
/// digits before its `-` (a leading `+` aside), the version does not parse.
pub proof fn law_node_version_rejects_bad_patch(a: Seq<char>, b: Seq<char>, c: Seq<char>, j: int)
    requires
        forall|i: int| 0 <= i < a.len() ==> a[i] != '.',
        forall|i: int| 0 <= i < b.len() ==> b[i] != '.',
        forall|i: int| 0 <= i < c.len() ==> c[i] != '.' && c[i] != '-',
        c.len() > 0 && !crate::text::is_ws(c.last()),
        0 <= j < c.len(),
        !('0' <= c[j] && c[j] <= '9'),
        j > 0 || c[j] != '+',
    ensures
        node_version_of(seq!['v'] + a + seq!['.'] + b + seq!['.'] + c) is None,
{
    let v = a + seq!['.'] + b + seq!['.'] + c;
    let none = Seq::<char>::empty();
    assert(v.last() == c[c.len() - 1]);
    lemma_version_digits_of(v, none);
    assert(seq!['v'] + v + none =~= seq!['v'] + a + seq!['.'] + b + seq!['.'] + c);
    lemma_split_single(a, '.');
    lemma_split_single(b, '.');
    lemma_split_single(c, '.');
    lemma_split_single(c, '-');
    lemma_split_around(a + seq!['.'] + b, c, '.');
    lemma_split_around(a, b, '.');
    assert(crate::text::split_on(v, '.') =~= seq![a, b, c]);
    let d = if c[0] == '+' {
        c.drop_first()
    } else {
        c
    };
    if c[0] == '+' {
        assert(j > 0);
        assert(d[j - 1] == c[j]);
    } else {
        assert(d[j] == c[j]);
    }
    assert(!all_digits(d));
    assert(parsed_u64(c) is None);
}

/// Why a Node runtime cannot serve SSR.
#[derive(Debug)]
pub enum NodeCheckError {
    /// `node --version` printed something that is not a version.
    InvalidVersion(String),
    /// The version is older than the required major version.
    Unsupported { found: String, required: u64 },
}

/// The oldest supported Node major version.
pub open spec fn required_node_major() -> u64 {
    22
}

/// Checks the output of `node --version`: it must parse, and its major
/// version must be at least 22.
pub fn check_node_version(output: &str) -> (r: Result<NodeVersion, NodeCheckError>)
    ensures
        match r {
            Ok(v) => node_version_of(output@) == Some(v) && v.major >= required_node_major(),
            Err(NodeCheckError::InvalidVersion(text)) => node_version_of(output@) is None && text@ == version_digits(
                output@,
            ),
            Err(NodeCheckError::Unsupported { found, required }) => node_version_of(output@) matches Some(v)
                && v.major < required_node_major() && required == required_node_major() && found@
                == crate::text::trim(output@),
        },
{
    match parse_node_version(output) {
        Err(text) => Err(NodeCheckError::InvalidVersion(text)),
        Ok(v) => {
            if v.major < 22 {
                Err(NodeCheckError::Unsupported { found: crate::text::trimmed(output), required: 22 })
            } else {
                Ok(v)
            }
        },
    }
}

/// A client setting that cannot be used.
#[derive(Clone, Copy, Debug, PartialEq, Eq, Structural)]
pub enum ClientLimitError {
    InvalidTimeout,
    InvalidControlTimeout,
    InvalidConcurrency,
    InvalidResponseLimit,
}

/// Validates SSR client settings in order: a non-zero render timeout and
/// control timeout (in nanoseconds), a non-zero concurrency limit, and a
/// non-zero response size limit.
pub fn validate_client_limits(
    timeout_nanos: u128,
    control_timeout_nanos: u128,
    max_concurrency: usize,
    max_response_bytes: usize,
) -> (r: Result<(), ClientLimitError>)
    ensures
        r == if timeout_nanos == 0 {
            Err(ClientLimitError::InvalidTimeout)
        } else if control_timeout_nanos == 0 {
            Err(ClientLimitError::InvalidControlTimeout)
        } else if max_concurrency == 0 {
            Err(ClientLimitError::InvalidConcurrency)
        } else if max_response_bytes == 0 {
            Err(ClientLimitError::InvalidResponseLimit)
        } else {
            Ok(())
        },
{
    if timeout_nanos == 0 {
        return Err(ClientLimitError::InvalidTimeout);
    }
    if control_timeout_nanos == 0 {
        return Err(ClientLimitError::InvalidControlTimeout);
    }
    if max_concurrency == 0 {
        return Err(ClientLimitError::InvalidConcurrency);
    }
    if max_response_bytes == 0 {
        return Err(ClientLimitError::InvalidResponseLimit);
    }
    Ok(())
}

/// The pause before health check `attempt` is retried, in milliseconds:
/// 25, 50, 100, 250, then 500 from the fifth attempt on.
pub open spec fn health_backoff(attempt: usize) -> u64 {
    if attempt == 0 {
        25
    } else if attempt == 1 {
        50
    } else if attempt == 2 {
        100
    } else if attempt == 3 {
        250
    } else {
        500
    }
}

/// The pause before retrying a health check: the backoff for `attempt`, cut
/// to the time remaining before the startup deadline (milliseconds).
pub fn health_retry_delay(attempt: usize, remaining_ms: u64) -> (d: u64)
    ensures
        d == if health_backoff(attempt) < remaining_ms {
            health_backoff(attempt)
        } else {
            remaining_ms
        },
{
    let backoff: u64 = if attempt == 0 {
        25
    } else if attempt == 1 {
        50
    } else if attempt == 2 {
        100
    } else if attempt == 3 {
        250
    } else {
        500
    };
    if backoff < remaining_ms {
        backoff
    } else {
        remaining_ms
    }
}

/// The pause before restart attempt `attempt` of an exited Node process,
/// in milliseconds: 100, 250, 500, 1000, 2000, then 5000.
pub open spec fn restart_backoff(attempt: usize) -> u64 {
    if attempt == 0 {
        100
    } else if attempt == 1 {
        250
    } else if attempt == 2 {
        500
    } else if attempt == 3 {
        1000
    } else if attempt == 4 {
        2000
    } else {
        5000
    }
}

/// The pause before restarting an exited Node process after `attempt`
/// failed restarts, in milliseconds.
pub fn restart_delay(attempt: usize) -> (d: u64)
    ensures
        d == restart_backoff(attempt),
{
    if attempt == 0 {
        100
    } else if attempt == 1 {
        250
    } else if attempt == 2 {
        500
    } else if attempt == 3 {
        1000
    } else if attempt == 4 {
        2000
    } else {
        5000
    }
}

/// The restart backoff never shrinks as attempts accumulate, starts at
/// 100 ms and never exceeds 5 s.
pub proof fn law_restart_backoff_grows(a: usize, b: usize)
    requires
        a <= b,
    ensures
        100 <= restart_backoff(a) <= restart_backoff(b) <= 5000,
{
}

/// Where the supervisor of a managed Node process stands.
#[derive(Clone, Copy, Debug, PartialEq, Eq, Structural)]
pub enum SupervisorPhase {
    /// The child process is serving; waiting for it to exit or for shutdown.
    Running,
    /// Waiting out the restart delay, or for shutdown.
    Waiting,
    /// A replacement child is being launched.
    Relaunching,
    /// A relaunched child is being polled until healthy.
    CheckingHealth,
    /// Supervision has ended.
    Stopped,
}

/// The supervisor's state: its phase and how many restarts in a row have
/// not yet produced a healthy child.
#[derive(Clone, Copy, Debug, PartialEq, Eq, Structural)]
pub struct Supervisor {
    pub phase: SupervisorPhase,
    pub restart_attempt: usize,
}

/// What the supervisor's environment reports.
#[derive(Clone, Copy, Debug, PartialEq, Eq, Structural)]
pub enum SupervisorEvent {
    /// The application dropped its handle: supervision should end.
    ShutdownRequested,
    /// The child process exited.
    ChildExited,
    /// The restart delay has passed.
    DelayElapsed,
    /// A replacement child was spawned.
    Relaunched,
    /// Spawning a replacement child failed.
    RelaunchFailed,
    /// The replacement child answered its health check.
    HealthReady,
    /// The replacement child did not become healthy before the startup timeout.
    HealthFailed,
}

/// What the supervisor asks its environment to do next.
#[derive(Clone, Copy, Debug, PartialEq, Eq, Structural)]
pub enum SupervisorAction {
    /// Nothing: wait for the next event of the current phase.
    Wait,
    /// Ask the child to shut down, wait for it (killing it after the
    /// control timeout), then end.
    StopChild,
    /// End supervision; no child is running.
    Exit,
    /// Sleep this many milliseconds, then report `DelayElapsed`.
    Sleep(u64),
    /// Spawn a replacement child and report whether that worked.
    Relaunch,
    /// Poll the replacement child's health until ready or the startup timeout.
    CheckHealth,
    /// Kill the unhealthy child and wait for it, then sleep this many
    /// milliseconds and report `DelayElapsed`.
    KillThenSleep(u64),
}

/// One transition: the next state, the action to perform, and the health
/// to publish, if it changes.
#[derive(Clone, Copy, Debug, PartialEq, Eq, Structural)]
pub struct SupervisorStep {
    pub next: Supervisor,
    pub action: SupervisorAction,
    pub report: Option<SsrHealth>,
}

/// `a + 1`, saturating at the largest `usize`.
pub open spec fn next_attempt(a: usize) -> usize {
    if a < usize::MAX {
        (a + 1) as usize
    } else {
        a
    }
}

/// The state after a failure: waiting, with one more attempt counted.
pub open spec fn after_failure(s: Supervisor) -> Supervisor {
    Supervisor { phase: SupervisorPhase::Waiting, restart_attempt: next_attempt(s.restart_attempt) }
}

/// The transition of the supervisor in state `s` on event `e`.  The running
/// child is stopped on shutdown; an exit publishes `Unavailable` and waits
/// out the restart backoff; each relaunch publishes `Starting`; a failed
/// spawn or health check waits out the next backoff; a healthy child
/// publishes `Ready` and resets the attempt count.  An event that the phase
/// does not wait for changes nothing.
pub open spec fn supervised(s: Supervisor, e: SupervisorEvent) -> SupervisorStep {
    let node = SsrBackendKind::ManagedNode;
    let a = s.restart_attempt;
    match (s.phase, e) {
        (SupervisorPhase::Running, SupervisorEvent::ShutdownRequested) => SupervisorStep {
            next: Supervisor { phase: SupervisorPhase::Stopped, restart_attempt: a },
            action: SupervisorAction::StopChild,
            report: None,
        },
        (SupervisorPhase::Running, SupervisorEvent::ChildExited) => SupervisorStep {
            next: after_failure(s),
            action: SupervisorAction::Sleep(restart_backoff(a)),
            report: Some(SsrHealth::Unavailable { backend: node }),
        },
        (SupervisorPhase::Waiting, SupervisorEvent::ShutdownRequested) => SupervisorStep {
            next: Supervisor { phase: SupervisorPhase::Stopped, restart_attempt: a },
            action: SupervisorAction::Exit,
            report: None,
        },
        (SupervisorPhase::Waiting, SupervisorEvent::DelayElapsed) => SupervisorStep {
            next: Supervisor { phase: SupervisorPhase::Relaunching, restart_attempt: a },
            action: SupervisorAction::Relaunch,
            report: Some(SsrHealth::Starting { backend: node }),
        },
        (SupervisorPhase::Relaunching, SupervisorEvent::Relaunched) => SupervisorStep {
            next: Supervisor { phase: SupervisorPhase::CheckingHealth, restart_attempt: a },
            action: SupervisorAction::CheckHealth,
            report: None,
        },
        (SupervisorPhase::Relaunching, SupervisorEvent::RelaunchFailed) => SupervisorStep {
            next: after_failure(s),
            action: SupervisorAction::Sleep(restart_backoff(a)),
            report: None,
        },
        (SupervisorPhase::CheckingHealth, SupervisorEvent::HealthReady) => SupervisorStep {
            next: Supervisor { phase: SupervisorPhase::Running, restart_attempt: 0 },
            action: SupervisorAction::Wait,
            report: Some(SsrHealth::Ready { backend: node }),
        },
        (SupervisorPhase::CheckingHealth, SupervisorEvent::HealthFailed) => SupervisorStep {
            next: after_failure(s),
            action: SupervisorAction::KillThenSleep(restart_backoff(a)),
            report: None,
        },
        _ => SupervisorStep { next: s, action: SupervisorAction::Wait, report: None },
    }
}

impl Supervisor {
    /// A supervisor for a child that has just passed its startup health check.
    pub fn new() -> (s: Supervisor)
        ensures
            s == (Supervisor { phase: SupervisorPhase::Running, restart_attempt: 0 }),
    {
        Supervisor { phase: SupervisorPhase::Running, restart_attempt: 0 }
    }

    /// The transition on `event` (see `supervised`).
    pub fn step(self, event: SupervisorEvent) -> (r: SupervisorStep)
        ensures
            r == supervised(self, event),
    {
        let node = SsrBackendKind::ManagedNode;
        let a = self.restart_attempt;
        let next_a: usize = if a < usize::MAX {
            a + 1
        } else {
            a
        };
        let waiting = Supervisor { phase: SupervisorPhase::Waiting, restart_attempt: next_a };
        match (self.phase, event) {
            (SupervisorPhase::Running, SupervisorEvent::ShutdownRequested) => SupervisorStep {
                next: Supervisor { phase: SupervisorPhase::Stopped, restart_attempt: a },
                action: SupervisorAction::StopChild,
                report: None,
            },
            (SupervisorPhase::Running, SupervisorEvent::ChildExited) => SupervisorStep {
                next: waiting,
                action: SupervisorAction::Sleep(restart_delay(a)),
                report: Some(SsrHealth::Unavailable { backend: node }),
            },
            (SupervisorPhase::Waiting, SupervisorEvent::ShutdownRequested) => SupervisorStep {
                next: Supervisor { phase: SupervisorPhase::Stopped, restart_attempt: a },
                action: SupervisorAction::Exit,
                report: None,
            },
            (SupervisorPhase::Waiting, SupervisorEvent::DelayElapsed) => SupervisorStep {
                next: Supervisor { phase: SupervisorPhase::Relaunching, restart_attempt: a },
                action: SupervisorAction::Relaunch,
                report: Some(SsrHealth::Starting { backend: node }),
            },
            (SupervisorPhase::Relaunching, SupervisorEvent::Relaunched) => SupervisorStep {
                next: Supervisor { phase: SupervisorPhase::CheckingHealth, restart_attempt: a },
                action: SupervisorAction::CheckHealth,
                report: None,
            },
            (SupervisorPhase::Relaunching, SupervisorEvent::RelaunchFailed) => SupervisorStep {
                next: waiting,
                action: SupervisorAction::Sleep(restart_delay(a)),
                report: None,
            },
            (SupervisorPhase::CheckingHealth, SupervisorEvent::HealthReady) => SupervisorStep {
                next: Supervisor { phase: SupervisorPhase::Running, restart_attempt: 0 },
                action: SupervisorAction::Wait,
                report: Some(SsrHealth::Ready { backend: node }),
            },
            (SupervisorPhase::CheckingHealth, SupervisorEvent::HealthFailed) => SupervisorStep {
                next: waiting,
                action: SupervisorAction::KillThenSleep(restart_delay(a)),
                report: None,
            },
            _ => SupervisorStep { next: self, action: SupervisorAction::Wait, report: None },
        }
    }
}

/// Once supervision has stopped, no event restarts it or asks for anything.
pub proof fn law_stopped_is_final(s: Supervisor, e: SupervisorEvent)
    requires
        s.phase == SupervisorPhase::Stopped,
    ensures
        supervised(s, e) == (SupervisorStep { next: s, action: SupervisorAction::Wait, report: None }),
{
}

/// A shutdown stops a running child before supervision ends, and ends it at
/// once while a restart is pending.
pub proof fn law_shutdown_ends_supervision(s: Supervisor)
    requires
        s.phase == SupervisorPhase::Running || s.phase == SupervisorPhase::Waiting,
    ensures
        supervised(s, SupervisorEvent::ShutdownRequested).next.phase == SupervisorPhase::Stopped,
        supervised(s, SupervisorEvent::ShutdownRequested).action == (if s.phase == SupervisorPhase::Running {
            SupervisorAction::StopChild
        } else {
            SupervisorAction::Exit
        }),
{
}

/// Every failure (an exit, a failed spawn, a failed health check) waits out
/// the backoff of the current attempt count and counts one more attempt;
/// a healthy relaunch publishes `Ready` and starts the count afresh.
pub proof fn law_failures_back_off_until_ready(s: Supervisor, e: SupervisorEvent)
    ensures
        ({
            let st = supervised(s, e);
            &&& (s.phase != SupervisorPhase::Waiting && st.next.phase == SupervisorPhase::Waiting) ==> {
                &&& st.action == SupervisorAction::Sleep(restart_backoff(s.restart_attempt))
                    || st.action == SupervisorAction::KillThenSleep(restart_backoff(s.restart_attempt))
                &&& st.next.restart_attempt == next_attempt(s.restart_attempt)
            }
            &&& (s.phase == SupervisorPhase::CheckingHealth && e == SupervisorEvent::HealthReady) ==> {
                &&& st.next.restart_attempt == 0
                &&& st.report == Some(SsrHealth::Ready { backend: SsrBackendKind::ManagedNode })
            }
        }),
{
}

/// The supervisor's state after the events `events`, one step at a time.
pub open spec fn run(s: Supervisor, events: Seq<SupervisorEvent>) -> Supervisor
    decreases events.len(),
{
    if events.len() == 0 {
        s
    } else {
        run(supervised(s, events[0]).next, events.drop_first())
    }
}

/// `n` rounds of a restart delay elapsing and the relaunch failing.
pub open spec fn failed_relaunches(n: nat) -> Seq<SupervisorEvent>
    decreases n,
{
    if n == 0 {
        Seq::empty()
    } else {
        seq![SupervisorEvent::DelayElapsed, SupervisorEvent::RelaunchFailed] + failed_relaunches((n - 1) as nat)
    }
}

/// The restart attempt counts consecutive failed relaunches: `n` rounds of
/// waiting and failing to relaunch leave the supervisor waiting with `n`
/// more attempts counted, so the next pause is `restart_backoff` of that.
pub proof fn law_attempts_count_failed_relaunches(s: Supervisor, n: nat)
    requires
        s.phase == SupervisorPhase::Waiting,
        s.restart_attempt + n <= usize::MAX,
    ensures
        run(s, failed_relaunches(n)) == (Supervisor {
            phase: SupervisorPhase::Waiting,
            restart_attempt: (s.restart_attempt + n) as usize,
        }),
    decreases n,
{
    if n > 0 {
        let events = failed_relaunches(n);
        let rest = failed_relaunches((n - 1) as nat);
        assert(events[0] == SupervisorEvent::DelayElapsed);
        assert(events.drop_first() =~= seq![SupervisorEvent::RelaunchFailed] + rest);
        let relaunching = supervised(s, SupervisorEvent::DelayElapsed).next;
        let tail = seq![SupervisorEvent::RelaunchFailed] + rest;
        assert(tail[0] == SupervisorEvent::RelaunchFailed);
        assert(tail.drop_first() =~= rest);
        let waiting = supervised(relaunching, SupervisorEvent::RelaunchFailed).next;
        assert(waiting == Supervisor {
            phase: SupervisorPhase::Waiting,
            restart_attempt: (s.restart_attempt + 1) as usize,
        });
        assert(run(s, events) == run(relaunching, tail));
        assert(run(relaunching, tail) == run(waiting, rest));
        law_attempts_count_failed_relaunches(waiting, (n - 1) as nat);
    }
}

/// What one startup health probe of a new SSR server found.
#[derive(Clone, Debug, PartialEq, Eq)]
pub enum ProbeOutcome<F> {
    /// The server answered healthy.
    Healthy,
    /// The server answered with a failure.
    Failed(F),
    /// The probe itself ran past the startup deadline.
    TimedOut,
}

/// What to do after a startup probe.
#[derive(Clone, Copy, Debug, PartialEq, Eq, Structural)]
pub enum ProbeDecision {
    /// The server is ready.
    Ready,
    /// Startup failed: the probe timed out.
    TimedOut,
    /// Sleep this many milliseconds, then probe again.
    Retry(u64),
}

/// The state of the startup health loop: how many probes have failed and
/// the last failure seen.
#[derive(Clone, Debug, PartialEq, Eq)]
pub struct StartupProbe<F> {
    pub attempt: usize,
    pub last_failure: Option<F>,
}

impl<F> StartupProbe<F> {
    /// No probe made yet.
    pub fn new() -> (p: StartupProbe<F>)
        ensures
            p.attempt == 0,
            p.last_failure is None,
    {
        StartupProbe { attempt: 0, last_failure: None }
    }

    /// Before each probe: with no time left before the startup deadline,
    /// startup has failed with the last failure seen (`Err`); otherwise
    /// probe (`Ok`, the state unchanged).
    pub fn before_probe(self, remaining_ms: u64) -> (r: Result<StartupProbe<F>, Option<F>>)
        ensures
            remaining_ms == 0 ==> r == Err::<StartupProbe<F>, Option<F>>(self.last_failure),
            remaining_ms != 0 ==> r == Ok::<StartupProbe<F>, Option<F>>(self),
    {
        if remaining_ms == 0 {
            Err(self.last_failure)
        } else {
            Ok(self)
        }
    }

    /// After a probe, with `remaining_ms` left before the deadline: a
    /// healthy answer ends the loop, a timed-out probe fails startup, and a
    /// failure is remembered and retried after `health_retry_delay`, with
    /// one more attempt counted (saturating).
    pub fn after_probe(self, outcome: ProbeOutcome<F>, remaining_ms: u64) -> (r: (
        StartupProbe<F>,
        ProbeDecision,
    ))
        ensures
            match outcome {
                ProbeOutcome::Healthy => r.1 == ProbeDecision::Ready && r.0 == self,
                ProbeOutcome::TimedOut => r.1 == ProbeDecision::TimedOut && r.0 == self,
                ProbeOutcome::Failed(e) => {
                    &&& r.1 == ProbeDecision::Retry(
                        if health_backoff(self.attempt) < remaining_ms {
                            health_backoff(self.attempt)
                        } else {
                            remaining_ms
                        },
                    )
                    &&& r.0.attempt == next_attempt(self.attempt)
                    &&& r.0.last_failure == Some(e)
                },
            },
    {
        match outcome {
            ProbeOutcome::Healthy => (self, ProbeDecision::Ready),
            ProbeOutcome::TimedOut => (self, ProbeDecision::TimedOut),
            ProbeOutcome::Failed(e) => {
                let delay = health_retry_delay(self.attempt, remaining_ms);
                let next: usize = if self.attempt < usize::MAX {
                    self.attempt + 1
                } else {
                    self.attempt
                };
                (StartupProbe { attempt: next, last_failure: Some(e) }, ProbeDecision::Retry(delay))
            },
        }
    }
}

} // verus!
