//! The key-configuration model and the configuration loader: validates and
//! normalizes environment-style key/value sources into a `Config`.

use vstd::prelude::*;
use vstd::string::StrSliceExecFns;
use vstd::string::StringExecFns;
use crate::errors::GatekeeperError;
use crate::keylist;
use crate::text::{
    eq_ci, is_blank, parse_dec, parse_dec_u64, str_eq, str_eq_ci, str_is_blank, trim, trim_chars,
    chars_to_string, push_dec, dec_str, upper_val,
};

verus! {

// ---------------------------------------------------------------------------
// Data model
// ---------------------------------------------------------------------------

/// The load-balancing policy: a closed set of variants. All three currently
/// resolve to plain rotation at selection time.
#[derive(Clone, Copy, Debug, PartialEq, Eq, Structural)]
pub enum LbPolicy {
    RoundRobin,
    WeightedRoundRobin,
    LeastPending,
}

impl Default for LbPolicy {
    /// The default policy is plain round-robin.
    fn default() -> (r: Self)
        ensures
            r == LbPolicy::RoundRobin,
    {
        LbPolicy::RoundRobin
    }
}

/// Retry tunables: pure data, no retry execution lives in this library.
#[derive(Clone, Copy, Debug, PartialEq, Eq, Structural)]
pub struct RetryConfig {
    pub max_retries: u32,
    pub base_delay_ms: u64,
    pub jitter: bool,
}

impl Default for RetryConfig {
    /// Defaults: 2 retries, 100 ms base delay, jitter on.
    fn default() -> (r: Self)
        ensures
            r == (RetryConfig { max_retries: 2, base_delay_ms: 100, jitter: true }),
    {
        RetryConfig { max_retries: 2, base_delay_ms: 100, jitter: true }
    }
}

/// Mathematical model of one key configuration.
#[verifier::ext_equal]
pub struct KeyModel {
    pub id: Seq<char>,
    pub value: Seq<char>,
    pub provider: Seq<char>,
    pub weight: u32,
}

/// Immutable description of one credential.
#[derive(Debug)]
pub struct KeyConfig {
    pub id: String,
    pub value: String,
    pub provider: String,
    pub weight: u32,
}

impl View for KeyConfig {
    type V = KeyModel;

    open spec fn view(&self) -> KeyModel {
        KeyModel {
            id: self.id@,
            value: self.value@,
            provider: self.provider@,
            weight: self.weight,
        }
    }
}

impl Clone for KeyConfig {
    fn clone(&self) -> (r: Self)
        ensures
            r == *self,
    {
        KeyConfig {
            id: self.id.clone(),
            value: self.value.clone(),
            provider: self.provider.clone(),
            weight: self.weight,
        }
    }
}

/// The models of a sequence of key configurations.
pub open spec fn kviews(ks: Seq<KeyConfig>) -> Seq<KeyModel> {
    ks.map_values(|k: KeyConfig| k@)
}

/// Mathematical model of a validated configuration.
#[verifier::ext_equal]
pub struct ConfigModel {
    pub provider: Option<Seq<char>>,
    pub keys: Seq<KeyModel>,
    pub lb_policy: LbPolicy,
    pub retry: RetryConfig,
}

/// A validated configuration: optional global provider, the ordered key
/// sequence, the load-balancing policy, and the retry tunables.
#[derive(Debug)]
pub struct Config {
    pub provider: Option<String>,
    pub keys: Vec<KeyConfig>,
    pub lb_policy: LbPolicy,
    pub retry: RetryConfig,
}

/// The view of an optional string.
pub open spec fn opt_view(o: Option<String>) -> Option<Seq<char>> {
    match o {
        Some(s) => Some(s@),
        None => None,
    }
}

impl View for Config {
    type V = ConfigModel;

    open spec fn view(&self) -> ConfigModel {
        ConfigModel {
            provider: opt_view(self.provider),
            keys: kviews(self.keys@),
            lb_policy: self.lb_policy,
            retry: self.retry,
        }
    }
}

impl Clone for Config {
    fn clone(&self) -> (r: Self)
        ensures
            r@ == self@,
    {
        let provider = match &self.provider {
            Some(p) => Some(p.clone()),
            None => None,
        };
        let mut keys: Vec<KeyConfig> = Vec::new();
        let n = self.keys.len();
        let mut i: usize = 0;
        while i < n
            invariant
                n == self.keys@.len(),
                i <= n,
                keys@ == self.keys@.subrange(0, i as int),
            decreases n - i,
        {
            keys.push(self.keys[i].clone());
            assert(keys@ =~= self.keys@.subrange(0, i as int + 1));
            i += 1;
        }
        assert(keys@ =~= self.keys@);
        let r = Config { provider, keys, lb_policy: self.lb_policy, retry: self.retry };
        assert(r@ =~= self@);
        r
    }
}

/// The fixed mask that replaces secret values in a redacted configuration.
pub open spec fn mask() -> Seq<char> {
    seq!['*', '*', '*']
}

impl Config {
    /// A deep copy safe for logging: every key's secret value is replaced by
    /// a fixed mask; identity, provider, weight, policy and retry settings
    /// are kept. The receiver is read-only, so the source is never mutated.
    pub fn redacted(&self) -> (r: Config)
        ensures
            r@.provider == self@.provider,
            r@.lb_policy == self@.lb_policy,
            r@.retry == self@.retry,
            r@.keys.len() == self@.keys.len(),
            forall|i: int|
                0 <= i < self@.keys.len() ==> {
                    &&& (#[trigger] r@.keys[i]).id == self@.keys[i].id
                    &&& r@.keys[i].provider == self@.keys[i].provider
                    &&& r@.keys[i].weight == self@.keys[i].weight
                    &&& r@.keys[i].value == mask()
                },
    {
        proof {
            reveal_strlit("***");
            assert("***"@ =~= mask());
        }
        let provider = match &self.provider {
            Some(p) => Some(p.clone()),
            None => None,
        };
        let mut keys: Vec<KeyConfig> = Vec::new();
        let n = self.keys.len();
        let mut i: usize = 0;
        while i < n
            invariant
                n == self.keys@.len(),
                i <= n,
                keys@.len() == i,
                "***"@ == mask(),
                forall|j: int|
                    0 <= j < i ==> {
                        &&& (#[trigger] keys@[j])@.id == self@.keys[j].id
                        &&& keys@[j]@.provider == self@.keys[j].provider
                        &&& keys@[j]@.weight == self@.keys[j].weight
                        &&& keys@[j]@.value == mask()
                    },
            decreases n - i,
        {
            let k = &self.keys[i];
            keys.push(
                KeyConfig {
                    id: k.id.clone(),
                    value: String::from_str("***"),
                    provider: k.provider.clone(),
                    weight: k.weight,
                },
            );
            i += 1;
        }
        Config { provider, keys, lb_policy: self.lb_policy, retry: self.retry }
    }
}

/// The raw environment-style values the loader reads, each optional, exactly
/// as the process environment would hand them over.
#[derive(Debug)]
pub struct EnvInput {
    pub provider: Option<String>,
    pub lb_policy: Option<String>,
    pub retry_max: Option<String>,
    pub retry_base_ms: Option<String>,
    pub retry_jitter: Option<String>,
    pub keys_json: Option<String>,
    pub keys: Option<String>,
}

/// Mathematical model of the loader's input.
#[verifier::ext_equal]
pub struct EnvModel {
    pub provider: Option<Seq<char>>,
    pub lb_policy: Option<Seq<char>>,
    pub retry_max: Option<Seq<char>>,
    pub retry_base_ms: Option<Seq<char>>,
    pub retry_jitter: Option<Seq<char>>,
    pub keys_json: Option<Seq<char>>,
    pub keys: Option<Seq<char>>,
}

impl View for EnvInput {
    type V = EnvModel;

    open spec fn view(&self) -> EnvModel {
        EnvModel {
            provider: opt_view(self.provider),
            lb_policy: opt_view(self.lb_policy),
            retry_max: opt_view(self.retry_max),
            retry_base_ms: opt_view(self.retry_base_ms),
            retry_jitter: opt_view(self.retry_jitter),
            keys_json: opt_view(self.keys_json),
            keys: opt_view(self.keys),
        }
    }
}

// ---------------------------------------------------------------------------
// Policy selection
// ---------------------------------------------------------------------------

/// The alias `RR`.
pub open spec fn alias_rr() -> Seq<char> {
    seq!['R', 'R']
}

/// The alias `ROUND_ROBIN`.
pub open spec fn alias_round_robin() -> Seq<char> {
    seq!['R', 'O', 'U', 'N', 'D', '_', 'R', 'O', 'B', 'I', 'N']
}

/// The alias `WRR`.
pub open spec fn alias_wrr() -> Seq<char> {
    seq!['W', 'R', 'R']
}

/// The alias `WEIGHTED_ROUND_ROBIN`.
pub open spec fn alias_weighted_round_robin() -> Seq<char> {
    seq![
        'W', 'E', 'I', 'G', 'H', 'T', 'E', 'D', '_', 'R', 'O', 'U', 'N', 'D', '_', 'R', 'O', 'B',
        'I', 'N',
    ]
}

/// The alias `LEAST_PENDING`.
pub open spec fn alias_least_pending() -> Seq<char> {
    seq!['L', 'E', 'A', 'S', 'T', '_', 'P', 'E', 'N', 'D', 'I', 'N', 'G']
}

/// The alias `LP`.
pub open spec fn alias_lp() -> Seq<char> {
    seq!['L', 'P']
}

/// The policy a selector string denotes: the exact aliases, compared
/// ASCII-case-insensitively; an absent selector defaults to round-robin;
/// any other value, the empty string included, is invalid.
pub open spec fn spec_policy(o: Option<Seq<char>>) -> Option<LbPolicy> {
    match o {
        None => Some(LbPolicy::RoundRobin),
        Some(s) => if eq_ci(s, alias_rr()) || eq_ci(s, alias_round_robin()) {
            Some(LbPolicy::RoundRobin)
        } else if eq_ci(s, alias_wrr()) || eq_ci(s, alias_weighted_round_robin()) {
            Some(LbPolicy::WeightedRoundRobin)
        } else if eq_ci(s, alias_least_pending()) || eq_ci(s, alias_lp()) {
            Some(LbPolicy::LeastPending)
        } else {
            None
        },
    }
}

/// Parses the load-balancing policy selector.
pub fn parse_policy(o: &Option<String>) -> (r: Result<LbPolicy, GatekeeperError>)
    ensures
        match spec_policy(opt_view(*o)) {
            Some(p) => r matches Ok(q) && q == p,
            None => r matches Err(e) && e matches GatekeeperError::InvalidConfig(_),
        },
{
    match o {
        None => Ok(LbPolicy::RoundRobin),
        Some(s) => {
            proof {
                reveal_strlit("RR");
                reveal_strlit("ROUND_ROBIN");
                reveal_strlit("WRR");
                reveal_strlit("WEIGHTED_ROUND_ROBIN");
                reveal_strlit("LEAST_PENDING");
                reveal_strlit("LP");
                assert("RR"@ =~= alias_rr());
                assert("ROUND_ROBIN"@ =~= alias_round_robin());
                assert("WRR"@ =~= alias_wrr());
                assert("WEIGHTED_ROUND_ROBIN"@ =~= alias_weighted_round_robin());
                assert("LEAST_PENDING"@ =~= alias_least_pending());
                assert("LP"@ =~= alias_lp());
            }
            if str_eq_ci(s.as_str(), "RR") || str_eq_ci(s.as_str(), "ROUND_ROBIN") {
                Ok(LbPolicy::RoundRobin)
            } else if str_eq_ci(s.as_str(), "WRR") || str_eq_ci(
                s.as_str(),
                "WEIGHTED_ROUND_ROBIN",
            ) {
                Ok(LbPolicy::WeightedRoundRobin)
            } else if str_eq_ci(s.as_str(), "LEAST_PENDING") || str_eq_ci(s.as_str(), "LP") {
                Ok(LbPolicy::LeastPending)
            } else {
                Err(GatekeeperError::InvalidConfig(String::from_str("unknown lb policy")))
            }
        },
    }
}

// ---------------------------------------------------------------------------
// Retry tunables
// ---------------------------------------------------------------------------

/// A decimal value read permissively: an absent, unparsable or out-of-range
/// string falls back to the default.
pub open spec fn spec_dec_or(o: Option<Seq<char>>, default: nat, max: nat) -> nat {
    match o {
        None => default,
        Some(s) => match parse_dec(s) {
            Some(v) => if v <= max {
                v
            } else {
                default
            },
            None => default,
        },
    }
}

/// The alias `TRUE`, for the jitter flag.
pub open spec fn alias_true() -> Seq<char> {
    seq!['T', 'R', 'U', 'E']
}

/// The jitter flag: absent defaults to on; a present value means on exactly
/// for `1` or a case-insensitive `true`.
pub open spec fn spec_jitter(o: Option<Seq<char>>) -> bool {
    match o {
        None => true,
        Some(s) => s == seq!['1'] || eq_ci(s, alias_true()),
    }
}

/// The retry tunables the three raw values denote.
pub open spec fn spec_retry(
    m: Option<Seq<char>>,
    b: Option<Seq<char>>,
    j: Option<Seq<char>>,
) -> RetryConfig {
    RetryConfig {
        max_retries: spec_dec_or(m, 2, u32::MAX as nat) as u32,
        base_delay_ms: spec_dec_or(b, 100, u64::MAX as nat) as u64,
        jitter: spec_jitter(j),
    }
}

/// Parses the retry tunables, each permissively and independently.
pub fn parse_retry(m: &Option<String>, b: &Option<String>, j: &Option<String>) -> (r: RetryConfig)
    ensures
        r == spec_retry(opt_view(*m), opt_view(*b), opt_view(*j)),
{
    let max_retries: u32 = match m {
        None => 2,
        Some(s) => match parse_dec_u64(s.as_str()) {
            Some(v) => if v <= u32::MAX as u64 {
                v as u32
            } else {
                2
            },
            None => 2,
        },
    };
    let base_delay_ms: u64 = match b {
        None => 100,
        Some(s) => match parse_dec_u64(s.as_str()) {
            Some(v) => v,
            None => 100,
        },
    };
    let jitter: bool = match j {
        None => true,
        Some(s) => {
            proof {
                reveal_strlit("1");
                reveal_strlit("TRUE");
                assert("1"@ =~= seq!['1']);
                assert("TRUE"@ =~= alias_true());
            }
            str_eq(s.as_str(), "1") || str_eq_ci(s.as_str(), "TRUE")
        },
    };
    RetryConfig { max_retries, base_delay_ms, jitter }
}

// ---------------------------------------------------------------------------
// Flat key list
// ---------------------------------------------------------------------------

/// The surviving segments of the flat comma-separated list, read from `i`
/// with `cur` the characters of the open segment: split on commas, trim each
/// segment, drop the empty ones.
pub open spec fn flat_vals(s: Seq<char>, i: int, cur: Seq<char>) -> Seq<Seq<char>>
    decreases s.len() - i,
{
    if i < s.len() {
        if s[i] == ',' {
            close_seg(cur) + flat_vals(s, i + 1, Seq::empty())
        } else {
            flat_vals(s, i + 1, cur.push(s[i]))
        }
    } else {
        close_seg(cur)
    }
}

/// A closed segment survives trimmed if anything remains.
pub open spec fn close_seg(cur: Seq<char>) -> Seq<Seq<char>> {
    if trim(cur).len() == 0 {
        Seq::empty()
    } else {
        seq![trim(cur)]
    }
}

/// The synthesized id of the key at 1-based position `pos`.
pub open spec fn key_id(pos: nat) -> Seq<char> {
    seq!['k'] + dec_str(pos)
}

/// The secret values of a key sequence.
pub open spec fn vals_of(ks: Seq<KeyModel>) -> Seq<Seq<char>> {
    ks.map_values(|m: KeyModel| m.value)
}

/// Every key has its position's synthesized id, the given provider, and
/// weight 1.
pub open spec fn keys_shape(ks: Seq<KeyModel>, dp: Seq<char>) -> bool {
    forall|j: int|
        0 <= j < ks.len() ==> #[trigger] ks[j] == (KeyModel {
            id: key_id((j + 1) as nat),
            value: ks[j].value,
            provider: dp,
            weight: 1,
        })
}

/// The keys the flat list denotes: one key per surviving segment, with
/// synthesized ids `k1`, `k2`, ..., the segment as the secret value, the
/// default provider, and weight 1.
pub open spec fn flat_keys(raw: Seq<char>, dp: Seq<char>) -> Seq<KeyModel> {
    flat_vals(raw, 0, Seq::empty()).map(
        |i: int, v: Seq<char>|
            KeyModel { id: key_id((i + 1) as nat), value: v, provider: dp, weight: 1 },
    )
}

/// Closes one segment: if anything remains after trimming, appends the key
/// it denotes, with the next synthesized id.
fn flush_segment(out: &mut Vec<KeyConfig>, cur: &Vec<char>, dp: &str)
    requires
        keys_shape(kviews(old(out)@), dp@),
        old(out)@.len() + cur@.len() <= usize::MAX,
    ensures
        vals_of(kviews(final(out)@)) == vals_of(kviews(old(out)@)) + close_seg(cur@),
        keys_shape(kviews(final(out)@), dp@),
        final(out)@.len() <= old(out)@.len() + cur@.len(),
{
    proof {
        crate::text::lemma_trim_len(cur@);
    }
    let t = trim_chars(cur);
    if t.len() > 0 {
        let mut idv: Vec<char> = Vec::new();
        idv.push('k');
        assert(idv@ =~= seq!['k']);
        let pos: usize = out.len() + 1;
        push_dec(&mut idv, pos as u64);
        proof {
            assert(idv@ =~= key_id((old(out)@.len() + 1) as nat));
        }
        let kc = KeyConfig {
            id: chars_to_string(&idv),
            value: chars_to_string(&t),
            provider: String::from_str(dp),
            weight: 1,
        };
        let ghost km = kc@;
        let ghost pre = kviews(out@);
        out.push(kc);
        proof {
            assert(kviews(out@) =~= pre.push(km));
            assert(vals_of(pre.push(km)) =~= vals_of(pre).push(km.value));
            assert(close_seg(cur@) =~= seq![trim(cur@)]);
            assert(vals_of(pre) + close_seg(cur@) =~= vals_of(pre).push(km.value));
            assert(km == (KeyModel {
                id: key_id((pre.len() + 1) as nat),
                value: km.value,
                provider: dp@,
                weight: 1,
            }));
            assert(keys_shape(kviews(out@), dp@));
        }
    } else {
        proof {
            assert(close_seg(cur@) =~= Seq::<Seq<char>>::empty());
            assert(vals_of(kviews(out@)) + close_seg(cur@) =~= vals_of(kviews(out@)));
        }
    }
}

/// Parses the flat comma-separated key list.
pub fn parse_flat(raw: &str, dp: &str) -> (keys: Vec<KeyConfig>)
    ensures
        kviews(keys@) == flat_keys(raw@, dp@),
{
    let n = raw.unicode_len();
    let mut out: Vec<KeyConfig> = Vec::new();
    let mut cur: Vec<char> = Vec::new();
    let mut i: usize = 0;
    while i < n
        invariant
            n == raw@.len(),
            i <= n,
            out@.len() + cur@.len() <= i,
            flat_vals(raw@, 0, Seq::empty()) == vals_of(kviews(out@)) + flat_vals(
                raw@,
                i as int,
                cur@,
            ),
            keys_shape(kviews(out@), dp@),
        decreases n - i,
    {
        let c = raw.get_char(i);
        if c == ',' {
            let ghost old_cur = cur@;
            let ghost old_vals = vals_of(kviews(out@));
            flush_segment(&mut out, &cur, dp);
            cur = Vec::new();
            proof {
                let rest = flat_vals(raw@, i as int + 1, Seq::<char>::empty());
                assert(flat_vals(raw@, i as int, old_cur) == close_seg(old_cur) + rest);
                assert(old_vals + (close_seg(old_cur) + rest) =~= (old_vals + close_seg(old_cur))
                    + rest);
            }
            i += 1;
        } else {
            cur.push(c);
            i += 1;
        }
    }
    let ghost old_cur = cur@;
    let ghost old_vals = vals_of(kviews(out@));
    flush_segment(&mut out, &cur, dp);
    proof {
        assert(flat_vals(raw@, n as int, old_cur) == close_seg(old_cur));
        let ks = kviews(out@);
        let vv = flat_vals(raw@, 0, Seq::<char>::empty());
        assert(vv == vals_of(ks));
        let fk = flat_keys(raw@, dp@);
        assert(fk.len() == ks.len());
        assert forall|q: int| 0 <= q < ks.len() implies ks[q] == fk[q] by {
            assert(vals_of(ks)[q] == ks[q].value);
            assert(fk[q] == (KeyModel {
                id: key_id((q + 1) as nat),
                value: vv[q],
                provider: dp@,
                weight: 1,
            }));
            assert(ks[q] == (KeyModel {
                id: key_id((q + 1) as nat),
                value: ks[q].value,
                provider: dp@,
                weight: 1,
            }));
        }
        assert(ks =~= fk);
    }
    out
}

// ---------------------------------------------------------------------------
// The loader
// ---------------------------------------------------------------------------

/// The literal provider tag used when no global provider is set.
pub open spec fn lit_default_provider() -> Seq<char> {
    seq!['d', 'e', 'f', 'a', 'u', 'l', 't']
}

/// The provider assigned to flat-list keys: the global provider, or the
/// literal `default`.
pub open spec fn default_provider(p: Option<Seq<char>>) -> Seq<char> {
    match p {
        Some(s) => s,
        None => lit_default_provider(),
    }
}

/// The raw flat list: absent reads as empty.
pub open spec fn flat_raw(e: EnvModel) -> Seq<char> {
    match e.keys {
        Some(s) => s,
        None => Seq::empty(),
    }
}

/// The key material the sources denote: a present, non-blank structured
/// list is parsed by its grammar and a malformed one is fatal (`None`, no
/// silent fallback); otherwise the flat list is parsed, which cannot fail.
pub open spec fn spec_keys(e: EnvModel) -> Option<Seq<KeyModel>> {
    match e.keys_json {
        Some(j) => if !is_blank(j) {
            crate::keylist::sp_keylist(j)
        } else {
            Some(flat_keys(flat_raw(e), default_provider(e.provider)))
        },
        None => Some(flat_keys(flat_raw(e), default_provider(e.provider))),
    }
}

/// A global provider is set and some key's provider differs from it.
pub open spec fn provider_mismatch(p: Option<Seq<char>>, ks: Seq<KeyModel>) -> bool {
    match p {
        Some(q) => exists|i: int| 0 <= i < ks.len() && (#[trigger] ks[i]).provider != q,
        None => false,
    }
}

/// The outcome of loading: the validated configuration the sources denote,
/// or `None` where they are invalid — an unknown policy selector, a
/// malformed structured list, an empty key sequence, or a provider
/// mismatch, checked in that order.
pub open spec fn spec_load(e: EnvModel) -> Option<ConfigModel> {
    match spec_policy(e.lb_policy) {
        None => None,
        Some(pol) => match spec_keys(e) {
            None => None,
            Some(ks) => if ks.len() == 0 {
                None
            } else if provider_mismatch(e.provider, ks) {
                None
            } else {
                Some(
                    ConfigModel {
                        provider: e.provider,
                        keys: ks,
                        lb_policy: pol,
                        retry: spec_retry(e.retry_max, e.retry_base_ms, e.retry_jitter),
                    },
                )
            },
        },
    }
}

/// The flat branch of the key stage: default provider and raw list from the
/// sources.
fn flat_stage(env: &EnvInput) -> (r: Vec<KeyConfig>)
    ensures
        kviews(r@) == flat_keys(flat_raw(env@), default_provider(env@.provider)),
{
    proof {
        reveal_strlit("default");
        reveal_strlit("");
        assert("default"@ =~= lit_default_provider());
        assert(""@ =~= Seq::<char>::empty());
    }
    let dp: &str = match &env.provider {
        Some(p) => p.as_str(),
        None => "default",
    };
    let raw: &str = match &env.keys {
        Some(s) => s.as_str(),
        None => "",
    };
    parse_flat(raw, dp)
}

/// The key stage: structured list when present and non-blank, flat list
/// otherwise.
fn parse_keys_stage(env: &EnvInput) -> (r: Result<Vec<KeyConfig>, GatekeeperError>)
    ensures
        match spec_keys(env@) {
            Some(ks) => r matches Ok(v) && kviews(v@) == ks,
            None => r matches Err(e) && e matches GatekeeperError::InvalidConfig(_),
        },
{
    match &env.keys_json {
        Some(j) => if !str_is_blank(j.as_str()) {
            crate::keylist::parse_keylist(j.as_str())
        } else {
            Ok(flat_stage(env))
        },
        None => Ok(flat_stage(env)),
    }
}

impl Config {
    /// Loads and validates a configuration from environment-style values.
    /// Succeeds exactly where the sources denote a valid configuration
    /// (`spec_load`); every rejection is an `InvalidConfig` failure, raised
    /// in validation order: unknown policy selector, malformed structured
    /// list, empty key sequence, provider mismatch.
    pub fn load(env: &EnvInput) -> (r: Result<Config, GatekeeperError>)
        ensures
            match spec_load(env@) {
                Some(m) => r matches Ok(c) && c@ == m,
                None => r matches Err(e) && e matches GatekeeperError::InvalidConfig(_),
            },
    {
        let lb_policy = match parse_policy(&env.lb_policy) {
            Ok(p) => p,
            Err(e) => {
                return Err(e);
            },
        };
        let retry = parse_retry(&env.retry_max, &env.retry_base_ms, &env.retry_jitter);
        let keys = match parse_keys_stage(env) {
            Ok(k) => k,
            Err(e) => {
                return Err(e);
            },
        };
        if keys.len() == 0 {
            return Err(
                GatekeeperError::InvalidConfig(String::from_str("no API keys configured")),
            );
        }
        match &env.provider {
            Some(p) => {
                let kn = keys.len();
                let mut i: usize = 0;
                while i < kn
                    invariant
                        kn == keys@.len(),
                        i <= kn,
                        kn > 0,
                        env@.provider == Some(p@),
                        spec_policy(env@.lb_policy) is Some,
                        spec_keys(env@) == Some(kviews(keys@)),
                        forall|q: int| 0 <= q < i ==> (#[trigger] keys@[q])@.provider == p@,
                    decreases kn - i,
                {
                    let ki = &keys[i];
                    if !str_eq(ki.provider.as_str(), p.as_str()) {
                        proof {
                            assert(kviews(keys@)[i as int] == keys@[i as int]@);
                            assert(kviews(keys@)[i as int].provider != p@);
                            assert(env@.provider == Some(p@));
                            assert(provider_mismatch(env@.provider, kviews(keys@)));
                        }
                        return Err(
                            GatekeeperError::InvalidConfig(
                                String::from_str(
                                    "provider mismatch between global provider and per-key settings",
                                ),
                            ),
                        );
                    }
                    i += 1;
                }
                proof {
                    assert forall|q: int| 0 <= q < kviews(keys@).len() implies (#[trigger] kviews(
                        keys@,
                    )[q]).provider == p@ by {
                        assert(kviews(keys@)[q] == keys@[q]@);
                    }
                    assert(!provider_mismatch(env@.provider, kviews(keys@)));
                }
            },
            None => {},
        }
        let provider = match &env.provider {
            Some(p) => Some(p.clone()),
            None => None,
        };
        let c = Config { provider, keys, lb_policy, retry };
        proof {
            assert(spec_load(env@) matches Some(m) && c@ == m);
        }
        Ok(c)
    }
}

// ---------------------------------------------------------------------------
// Laws
// ---------------------------------------------------------------------------

/// Strings equal up to ASCII case compare equally, up to case, with any
/// third string.
pub proof fn lemma_eq_ci_subst(s: Seq<char>, t: Seq<char>, a: Seq<char>)
    requires
        eq_ci(s, t),
    ensures
        eq_ci(s, a) == eq_ci(t, a),
{
    if eq_ci(s, a) {
        assert forall|i: int| 0 <= i < t.len() implies upper_val(#[trigger] t[i]) == upper_val(
            a[i],
        ) by {
            assert(upper_val(s[i]) == upper_val(t[i]));
            assert(upper_val(s[i]) == upper_val(a[i]));
        }
        assert(eq_ci(t, a));
    }
    if eq_ci(t, a) {
        assert forall|i: int| 0 <= i < s.len() implies upper_val(#[trigger] s[i]) == upper_val(
            a[i],
        ) by {
            assert(upper_val(s[i]) == upper_val(t[i]));
            assert(upper_val(t[i]) == upper_val(a[i]));
        }
        assert(eq_ci(s, a));
    }
}

/// Policy selection is ASCII-case-insensitive: two selector strings equal
/// up to case denote the same policy, or both fail.
pub proof fn lemma_policy_case_insensitive(s: Seq<char>, t: Seq<char>)
    requires
        eq_ci(s, t),
    ensures
        spec_policy(Some(s)) == spec_policy(Some(t)),
{
    lemma_eq_ci_subst(s, t, alias_rr());
    lemma_eq_ci_subst(s, t, alias_round_robin());
    lemma_eq_ci_subst(s, t, alias_wrr());
    lemma_eq_ci_subst(s, t, alias_weighted_round_robin());
    lemma_eq_ci_subst(s, t, alias_least_pending());
    lemma_eq_ci_subst(s, t, alias_lp());
}

/// A malformed, non-blank structured key list makes loading fail, whatever
/// every other source — a flat list included — holds.
pub proof fn lemma_malformed_keylist_rejected(e: EnvModel)
    requires
        e.keys_json matches Some(j) && !is_blank(j) && crate::keylist::sp_keylist(j) is None,
    ensures
        spec_load(e) is None,
{
}

/// A global provider together with any key whose provider differs makes
/// loading fail, wherever that key stands in the sequence.
pub proof fn lemma_provider_mismatch_rejected(e: EnvModel, i: int)
    requires
        e.provider is Some,
        spec_keys(e) matches Some(ks) && 0 <= i < ks.len() && ks[i].provider != e.provider->0,
    ensures
        spec_load(e) is None,
{
    match spec_keys(e) {
        Some(ks) => {
            assert(provider_mismatch(e.provider, ks));
        },
        None => {},
    }
}

} // verus!
