//! The logging bootstrap: backend selection, filter resolution, the
//! rotation rule for the log file, and the one-time-initialization state
//! machine.
//!
//! The host process owns the installed sink; this module owns every
//! decision about it. A caller drives [`LoggerBootstrap::initialize`] and
//! carries out the plan it hands back; a second call hands back nothing,
//! so the sink is never installed twice.

use vstd::prelude::*;
use vstd::string::*;

use crate::ip::{find_char, lemma_find_char_props};
use crate::text::str_eq;

verus! {

/// The two mutually exclusive logging backends.
#[derive(Clone, Copy, Debug, PartialEq, Eq, Structural)]
pub enum LogBackend {
    Terminal,
    File,
}

/// `"file"` selects the rotating file backend; every other value,
/// recognized or not, falls back to the console backend.
pub open spec fn spec_backend_of(mode: Seq<char>) -> LogBackend {
    if mode == "file"@ {
        LogBackend::File
    } else {
        LogBackend::Terminal
    }
}

/// Selects the backend for a `log_mode` value.
pub fn select_backend(mode: &str) -> (r: LogBackend)
    ensures
        r == spec_backend_of(mode@),
{
    if str_eq(mode, "file") {
        LogBackend::File
    } else {
        LogBackend::Terminal
    }
}

/// Whether a filter expression parses.
pub uninterp spec fn spec_filter_valid(s: Seq<char>) -> bool;

/// The code points the filter parser trims as whitespace (the Unicode
/// White_Space set).
pub open spec fn is_whitespace_char(c: char) -> bool {
    ||| 0x09 <= (c as u32) <= 0x0D
    ||| (c as u32) == 0x20
    ||| (c as u32) == 0x85
    ||| (c as u32) == 0xA0
    ||| (c as u32) == 0x1680
    ||| 0x2000 <= (c as u32) <= 0x200A
    ||| (c as u32) == 0x2028
    ||| (c as u32) == 0x2029
    ||| (c as u32) == 0x202F
    ||| (c as u32) == 0x205F
    ||| (c as u32) == 0x3000
}

/// Whether `c` is an ASCII character.
pub open spec fn is_ascii_char(c: char) -> bool {
    (c as u32) < 128
}

/// One comma-separated piece of a directive string, starting at `p` and
/// running to the next comma or the end, is read safely by the filter
/// parser: it is all ASCII, or its first character is no whitespace.
pub open spec fn spec_piece_safe(s: Seq<char>, p: int) -> bool {
    let e = find_char(s, ',', p);
    ||| (forall|i: int| p <= i < e ==> is_ascii_char(s[i]))
    ||| (p < e && !is_whitespace_char(s[p]))
}

/// Whether probing a directive string cannot abort. The filter parser
/// trims each comma-separated piece but cuts the untrimmed piece at the
/// trimmed piece's byte positions; a piece with leading whitespace and a
/// later multibyte character would make it cut a character in half. A
/// piece that is all ASCII, or that starts with no whitespace, is read
/// whole.
pub open spec fn spec_filter_safe(s: Seq<char>) -> bool {
    forall|p: int| 0 <= p <= s.len() && (p == 0 || s[p - 1] == ',') ==> spec_piece_safe(s, p)
}

/// A directive string counts as usable only where probing it is safe and
/// the probe accepts it.
pub open spec fn spec_filter_accepted(s: Seq<char>) -> bool {
    spec_filter_safe(s) && spec_filter_valid(s)
}

/// Relies on tracing_subscriber::EnvFilter::try_new: whether a directive
/// string parses is a function of the string alone. On a string with a
/// whitespace-led piece holding a multibyte character the parser can
/// abort on a mid-character slice, so `requires` keeps such strings out;
/// [`resolve_filter`] tests that bound in verified code before every
/// call.
#[verifier::external_body]
fn filter_expression_is_valid(s: &str) -> (r: bool)
    requires
        spec_filter_safe(s@),
    ensures
        r == spec_filter_valid(s@),
{
    tracing_subscriber::EnvFilter::try_new(s).is_ok()
}

fn char_is_whitespace(c: char) -> (r: bool)
    ensures
        r == is_whitespace_char(c),
{
    let u = c as u32;
    (0x09 <= u && u <= 0x0D) || u == 0x20 || u == 0x85 || u == 0xA0 || u == 0x1680 || (0x2000 <= u
        && u <= 0x200A) || u == 0x2028 || u == 0x2029 || u == 0x202F || u == 0x205F || u == 0x3000
}

fn find_comma(s: &str, from: usize) -> (r: usize)
    requires
        from <= s@.len(),
    ensures
        from <= r <= s@.len(),
        r == find_char(s@, ',', from as int),
    decreases s@.len() - from,
{
    if from == s.unicode_len() {
        from
    } else if s.get_char(from) == ',' {
        from
    } else {
        find_comma(s, from + 1)
    }
}

fn all_ascii_between(s: &str, from: usize, to: usize) -> (r: bool)
    requires
        from <= to <= s@.len(),
    ensures
        r == (forall|i: int| from <= i < to ==> is_ascii_char(s@[i])),
{
    let mut i: usize = from;
    while i < to
        invariant
            from <= i <= to,
            to <= s@.len(),
            forall|j: int| from <= j < i ==> is_ascii_char(s@[j]),
        decreases to - i,
    {
        if (s.get_char(i) as u32) >= 128 {
            return false;
        }
        i += 1;
    }
    true
}

/// Whether the filter probe reads every piece of `s` safely.
fn filter_probe_safe(s: &str) -> (r: bool)
    ensures
        r == spec_filter_safe(s@),
{
    let len = s.unicode_len();
    let mut p: usize = 0;
    loop
        invariant
            p <= len,
            len == s@.len(),
            p == 0 || s@[p - 1] == ',',
            forall|q: int| 0 <= q < p && (q == 0 || s@[q - 1] == ',') ==> spec_piece_safe(s@, q),
        decreases len - p,
    {
        let e = find_comma(s, p);
        proof {
            lemma_find_char_props(s@, ',', p as int);
        }
        let piece_ok = if p < e && !char_is_whitespace(s.get_char(p)) {
            true
        } else {
            all_ascii_between(s, p, e)
        };
        if !piece_ok {
            proof {
                assert(!spec_piece_safe(s@, p as int));
            }
            return false;
        }
        if e == len {
            proof {
                assert forall|q: int|
                    0 <= q <= s@.len() && (q == 0 || s@[q - 1] == ',') implies spec_piece_safe(
                    s@,
                    q,
                ) by {
                    if q > p {
                        assert(p <= q - 1 < e);
                        assert(s@[q - 1] != ',');
                    }
                }
            }
            return true;
        }
        proof {
            assert(s@[e as int] == ',');
            assert forall|q: int|
                0 <= q < e + 1 && (q == 0 || s@[q - 1] == ',') implies spec_piece_safe(s@, q) by {
                if p < q {
                    assert(p <= q - 1 < e);
                    assert(s@[q - 1] != ',');
                }
            }
        }
        p = e + 1;
    }
}

/// The configured expression where it is usable, else the hard-coded
/// fallback `"info"`.
pub open spec fn spec_filter_fallback(configured: Seq<char>) -> Seq<char> {
    if spec_filter_accepted(configured) {
        configured
    } else {
        "info"@
    }
}

/// The filter that is installed: the environment override where it is
/// present and usable, else the configured expression where it is usable,
/// else `"info"`. Resolution never fails: an expression the probe
/// refuses, and one it could not even read safely, both degrade to the
/// next tier.
pub open spec fn spec_resolved_filter(env_value: Option<Seq<char>>, configured: Seq<char>) -> Seq<
    char,
> {
    match env_value {
        Some(e) => if spec_filter_accepted(e) {
            e
        } else {
            spec_filter_fallback(configured)
        },
        None => spec_filter_fallback(configured),
    }
}

/// The view of an optional borrowed environment value.
pub open spec fn spec_env_view(env_value: Option<&String>) -> Option<Seq<char>> {
    match env_value {
        Some(e) => Some(e@),
        None => None,
    }
}

/// Resolves the filter expression, degrading to `"info"` instead of
/// failing.
pub fn resolve_filter(env_value: Option<&String>, configured: &str) -> (r: String)
    ensures
        r@ == spec_resolved_filter(spec_env_view(env_value), configured@),
{
    match env_value {
        Some(e) => {
            if filter_probe_safe(e.as_str()) {
                if filter_expression_is_valid(e.as_str()) {
                    return e.clone();
                }
            }
        },
        None => {},
    }
    if filter_probe_safe(configured) {
        if filter_expression_is_valid(configured) {
            return String::from_str(configured);
        }
    }
    String::from_str("info")
}

/// The rotation threshold: 1 MiB.
pub const LOG_ROTATE_THRESHOLD: u64 = 1048576;

/// Whether the log file must be deleted before opening: it exists as a
/// regular file and already holds at least 1 MiB. Below the threshold the
/// file is kept and appended to.
pub fn rotation_needed(exists_as_file: bool, size: u64) -> (r: bool)
    ensures
        r == (exists_as_file && size >= 1048576),
{
    exists_as_file && size >= LOG_ROTATE_THRESHOLD
}

/// What a first initialization asks the host process to install.
pub struct InitPlan {
    /// Which backend to install.
    pub backend: LogBackend,
    /// The resolved filter expression to install with it.
    pub filter: String,
}

/// The one-time-initialization guard for the process-wide log sink.
pub struct LoggerBootstrap {
    initialized: bool,
}

impl LoggerBootstrap {
    /// Whether the transition to `Initialized` has happened.
    pub closed spec fn initialized(&self) -> bool {
        self.initialized
    }

    /// The state transition: only out of `Uninitialized` does the step
    /// produce a plan, and it never leaves `Initialized` again.
    pub closed spec fn spec_init_step(s: LoggerBootstrap) -> (LoggerBootstrap, bool) {
        if s.initialized() {
            (s, false)
        } else {
            (LoggerBootstrap { initialized: true }, true)
        }
    }

    pub fn new() -> (r: Self)
        ensures
            !r.initialized(),
    {
        LoggerBootstrap { initialized: false }
    }

    /// The single entry point: the first call hands back the installation
    /// plan for the configured mode and moves to `Initialized`; every
    /// later call hands back nothing and changes nothing, so rotation and
    /// file opening happen at most once.
    pub fn initialize(
        &mut self,
        log_mode: &str,
        log_filters: &str,
        env_value: Option<&String>,
    ) -> (r: Option<InitPlan>)
        ensures
            ({
                let (next, produced) = Self::spec_init_step(*old(self));
                &&& *final(self) == next
                &&& produced == (r is Some)
            }),
            old(self).initialized() ==> r is None,
            !old(self).initialized() ==> (match r {
                Some(p) => p.backend == spec_backend_of(log_mode@) && p.filter@
                    == spec_resolved_filter(spec_env_view(env_value), log_filters@),
                None => false,
            }),
    {
        if self.initialized {
            return None;
        }
        self.initialized = true;
        let backend = select_backend(log_mode);
        let filter = resolve_filter(env_value, log_filters);
        Some(InitPlan { backend, filter })
    }
}

/// One-time initialization: out of a fresh state the first step produces
/// a plan, the step after it produces none, and the state reached by the
/// first step never changes again.
pub proof fn lemma_initialize_idempotent(s: LoggerBootstrap)
    requires
        !s.initialized(),
    ensures
        ({
            let (s1, first) = LoggerBootstrap::spec_init_step(s);
            let (s2, second) = LoggerBootstrap::spec_init_step(s1);
            &&& first
            &&& s1.initialized()
            &&& !second
            &&& s2 == s1
        }),
{
}

} // verus!
