//! Messaging (NATS) plugins: their per-phase policies and their set-up.
use vstd::prelude::*;
use vstd::string::*;
use crate::assoc::{pairs_map, unique_keys, lemma_pairs_map_update, lemma_pairs_map_push};
use crate::config::proxy::trim_start_ws;
use crate::config::proxy::{trim_exec, trim_ws};
use crate::error::NylonError;
use crate::messaging::options::{NatsClientOptions, assoc_set_all, pairs_view, merge_headers, keys_unique};
use crate::messaging::retry::RetryPolicy;
use crate::messaging::protocol::{PROTOCOL_VERSION, PluginRequest, PluginResponse, ResponseAction};
use crate::plugin::types::PluginResult;
use crate::types::context::NylonContext;
use crate::types::eval::text_eq;
use crate::types::plugins::{
    MessagingAuthConfig, MessagingConfig, MessagingOnError, MessagingPhase, MessagingPhaseConfig,
    MessagingTlsConfig, OverflowPolicy, PluginItem, PluginPhase, RetryPolicyConfig,
};

verus! {

/// How the calls of one phase are made.
#[derive(Debug, Clone, Copy)]
pub struct PhasePolicy {
    pub timeout_ms: Option<u64>,
    pub on_error: MessagingOnError,
    pub retry: RetryPolicy,
}

/// `policy` with the positive settings of `config` put in.
pub open spec fn spec_apply_retry(policy: RetryPolicy, config: RetryPolicyConfig) -> RetryPolicy {
    RetryPolicy {
        max_attempts: if config.max is Some && config.max.unwrap() > 0 {
            config.max.unwrap() as usize
        } else {
            policy.max_attempts
        },
        backoff_initial_ms: if config.backoff_ms_initial is Some && config.backoff_ms_initial.unwrap() > 0 {
            config.backoff_ms_initial.unwrap()
        } else {
            policy.backoff_initial_ms
        },
        backoff_max_ms: if config.backoff_ms_max is Some && config.backoff_ms_max.unwrap() > 0 {
            config.backoff_ms_max.unwrap()
        } else {
            policy.backoff_max_ms
        },
    }
}

pub open spec fn default_retry() -> RetryPolicy {
    RetryPolicy { max_attempts: 1, backoff_initial_ms: 50, backoff_max_ms: 250 }
}

pub open spec fn opt_config(c: Option<&RetryPolicyConfig>) -> Option<RetryPolicyConfig> {
    match c {
        Some(x) => Some(*x),
        None => None,
    }
}

/// The default policy with `base`, then `over`, applied.
pub open spec fn spec_merge_retry(base: Option<RetryPolicyConfig>, over: Option<RetryPolicyConfig>) -> RetryPolicy {
    let p0 = default_retry();
    let p1 = match base { Some(b) => spec_apply_retry(p0, b), None => p0 };
    match over { Some(o) => spec_apply_retry(p1, o), None => p1 }
}

/// The policy of a phase configured by `cfg`.
pub open spec fn spec_phase_policy(cfg: MessagingPhaseConfig, base: Option<RetryPolicyConfig>) -> PhasePolicy {
    PhasePolicy {
        timeout_ms: cfg.timeout_ms,
        on_error: match cfg.on_error { Some(e) => e, None => MessagingOnError::Retry },
        retry: spec_merge_retry(base, cfg.retry),
    }
}

/// The policies of the configured phases; a phase configured twice keeps the later one.
pub open spec fn spec_phase_policies(cfgs: Seq<(MessagingPhase, MessagingPhaseConfig)>, base: Option<RetryPolicyConfig>) -> Map<MessagingPhase, PhasePolicy>
    decreases cfgs.len(),
{
    if cfgs.len() == 0 {
        Map::empty()
    } else {
        spec_phase_policies(cfgs.drop_last(), base).insert(cfgs.last().0, spec_phase_policy(cfgs.last().1, base))
    }
}

/// Puts the positive settings of `config` into `policy`.
pub fn apply_retry_config(policy: &mut RetryPolicy, config: &RetryPolicyConfig)
    ensures
        *final(policy) == spec_apply_retry(*old(policy), *config),
{
    if let Some(max) = config.max {
        if max > 0 {
            policy.max_attempts = max as usize;
        }
    }
    if let Some(initial) = config.backoff_ms_initial {
        if initial > 0 {
            policy.backoff_initial_ms = initial;
        }
    }
    if let Some(max) = config.backoff_ms_max {
        if max > 0 {
            policy.backoff_max_ms = max;
        }
    }
}

/// The default retry policy with the base settings and then the overriding ones applied.
pub fn merge_retry_policy(base: Option<&RetryPolicyConfig>, override_cfg: Option<&RetryPolicyConfig>) -> (r: RetryPolicy)
    ensures
        r == spec_merge_retry(opt_config(base), opt_config(override_cfg)),
{
    let mut policy = RetryPolicy::default_policy();
    if let Some(config) = base {
        apply_retry_config(&mut policy, config);
    }
    if let Some(config) = override_cfg {
        apply_retry_config(&mut policy, config);
    }
    policy
}

fn put_policy(policies: &mut Vec<(MessagingPhase, PhasePolicy)>, phase: MessagingPhase, policy: PhasePolicy)
    requires
        unique_keys(old(policies)@),
    ensures
        unique_keys(final(policies)@),
        pairs_map(final(policies)@) == pairs_map(old(policies)@).insert(phase, policy),
{
    let mut i: usize = 0;
    while i < policies.len()
        invariant
            i <= policies.len(),
            policies@ == old(policies)@,
            unique_keys(policies@),
            forall|x: int| 0 <= x < i ==> policies@[x].0 != phase,
        decreases policies.len() - i,
    {
        if policies[i].0 == phase {
            proof {
                lemma_pairs_map_update(policies@, i as int, policy);
            }
            policies.set(i, (phase, policy));
            return;
        }
        i = i + 1;
    }
    proof {
        lemma_pairs_map_push(policies@, phase, policy);
    }
    policies.push((phase, policy));
}

/// The policy of each configured phase, one entry per phase.
pub fn build_phase_policies(
    per_phase: Option<&Vec<(MessagingPhase, MessagingPhaseConfig)>>,
    base_retry: Option<&RetryPolicyConfig>,
) -> (r: Vec<(MessagingPhase, PhasePolicy)>)
    ensures
        unique_keys(r@),
        pairs_map(r@) == match per_phase {
            Some(c) => spec_phase_policies(c@, opt_config(base_retry)),
            None => Map::empty(),
        },
{
    let mut policies: Vec<(MessagingPhase, PhasePolicy)> = Vec::new();
    if let Some(configs) = per_phase {
        let mut i: usize = 0;
        while i < configs.len()
            invariant
                i <= configs.len(),
                unique_keys(policies@),
                pairs_map(policies@) == spec_phase_policies(configs@.subrange(0, i as int), opt_config(base_retry)),
            decreases configs.len() - i,
        {
            let (phase, cfg) = configs[i];
            let on_error = match cfg.on_error {
                Some(e) => e,
                None => MessagingOnError::Retry,
            };
            let retry = merge_retry_policy(base_retry, cfg.retry.as_ref());
            put_policy(&mut policies, phase, PhasePolicy { timeout_ms: cfg.timeout_ms, on_error, retry });
            proof {
                let s = configs@.subrange(0, i + 1);
                assert(s.drop_last() =~= configs@.subrange(0, i as int));
            }
            i = i + 1;
        }
        proof {
            assert(configs@.subrange(0, i as int) =~= configs@);
        }
    } else {
        assert(pairs_map(policies@) =~= Map::<MessagingPhase, PhasePolicy>::empty());
    }
    policies
}

/// The subject fragment of a phase.
pub open spec fn spec_phase_fragment(phase: PluginPhase) -> Seq<char> {
    match phase {
        PluginPhase::Zero => "zero"@,
        PluginPhase::RequestFilter => "request_filter"@,
        PluginPhase::ResponseFilter => "response_filter"@,
        PluginPhase::ResponseBodyFilter => "response_body_filter"@,
        PluginPhase::Logging => "logging"@,
    }
}

/// The part of the subject that names a phase.
pub fn phase_subject_fragment(phase: PluginPhase) -> (r: &'static str)
    ensures
        r@ == spec_phase_fragment(phase),
{
    match phase {
        PluginPhase::Zero => "zero",
        PluginPhase::RequestFilter => "request_filter",
        PluginPhase::ResponseFilter => "response_filter",
        PluginPhase::ResponseBodyFilter => "response_body_filter",
        PluginPhase::Logging => "logging",
    }
}

/// The subject a phase of a plugin is requested on.
pub open spec fn spec_phase_subject(plugin_name: Seq<char>, phase: PluginPhase) -> Seq<char> {
    "nylon.plugin."@ + plugin_name + "."@ + spec_phase_fragment(phase)
}

/// `nylon.plugin.<plugin>.<phase>`
pub fn phase_subject(plugin_name: &str, phase: PluginPhase) -> (r: String)
    ensures
        r@ == spec_phase_subject(plugin_name@, phase),
{
    let r = String::from_str("nylon.plugin.").concat(plugin_name).concat(".").concat(phase_subject_fragment(phase));
    proof {
        reveal_strlit("nylon.plugin.");
        reveal_strlit(".");
    }
    r
}

/// Source of session ids: counts up from 1, wrapping around.
pub struct SessionIds {
    next: u32,
}

impl SessionIds {
    pub closed spec fn peek(&self) -> u32 {
        self.next
    }

    /// A source whose first id is 1.
    pub fn new() -> (r: SessionIds)
        ensures
            r.peek() == 1,
    {
        SessionIds { next: 1 }
    }

    /// The next session id.
    pub fn next_session_id(&mut self) -> (r: u32)
        ensures
            r == old(self).peek(),
            final(self).peek() == (if old(self).peek() == u32::MAX { 0 } else { (old(self).peek() + 1) as u32 }),
    {
        let id = self.next;
        self.next = if self.next == u32::MAX { 0 } else { self.next + 1 };
        id
    }
}

/// Calls `std::time::SystemTime::now` and returns the milliseconds since the
/// Unix epoch (0 when the clock is before it). Nothing is promised of the value.
#[verifier::external_body]
pub(crate) fn now_unix_millis() -> u64 {
    std::time::SystemTime::now()
        .duration_since(std::time::UNIX_EPOCH)
        .unwrap_or_default()
        .as_millis() as u64
}

/// The queue group: the plugin's group unless it is blank, else `default`.
pub open spec fn spec_queue_group(group: Option<String>) -> Seq<char> {
    match group {
        Some(g) => if trim_ws(g@).len() > 0 { g@ } else { "default"@ },
        None => "default"@,
    }
}

pub open spec fn no_servers_message(name: Seq<char>) -> Seq<char> {
    "Messaging config '"@ + name + "' must specify at least one server"@
}

/// A plugin served over messaging, as configured.
#[derive(Debug)]
pub struct MessagingPlugin {
    pub plugin_name: String,
    pub config_name: String,
    pub queue_group: String,
    pub options: NatsClientOptions,
    pub per_phase: Vec<(MessagingPhase, PhasePolicy)>,
    pub auth: Option<MessagingAuthConfig>,
    pub tls: Option<MessagingTlsConfig>,
}

impl MessagingPlugin {
    /// The plugin `plugin` served over the connection `config`. Fails when the
    /// connection names no server.
    pub fn new(plugin: &PluginItem, config: &MessagingConfig) -> (r: Result<MessagingPlugin, NylonError>)
        ensures
            config.servers@.len() == 0 <==> r is Err,
            r matches Err(e) ==> e == NylonError::ConfigError(e->ConfigError_0)
                && e->ConfigError_0@ == no_servers_message(config.name@),
            r matches Ok(p) ==> {
                &&& p.plugin_name@ == plugin.name@
                &&& p.config_name@ == config.name@
                &&& p.queue_group@ == spec_queue_group(plugin.group)
                &&& p.options.servers@ == config.servers@
                &&& p.options.name.is_none()
                &&& p.options.subject_prefix == config.subject_prefix
                &&& p.options.request_timeout_ms == match config.request_timeout_ms { Some(t) => t, None => 500 }
                &&& p.options.max_inflight == match plugin.max_inflight {
                        Some(m) => m as usize,
                        None => match config.max_inflight { Some(m) => m as usize, None => 1024 },
                    }
                &&& p.options.overflow_policy == match plugin.overflow_policy {
                        Some(o) => o,
                        None => match config.overflow_policy { Some(o) => o, None => OverflowPolicy::Queue },
                    }
                &&& p.options.retry_policy == spec_merge_retry(config.retry, None)
                &&& keys_unique(pairs_view(p.options.default_headers@))
                &&& pairs_view(p.options.default_headers@) == assoc_set_all(Seq::empty(),
                        match config.default_headers { Some(h) => pairs_view(h@), None => Seq::empty() }, 0)
                &&& unique_keys(p.per_phase@)
                &&& pairs_map(p.per_phase@) == match plugin.per_phase {
                        Some(c) => spec_phase_policies(c@, config.retry),
                        None => Map::empty(),
                    }
                &&& p.auth == config.auth
                &&& p.tls == config.tls
            },
    {
        if config.servers.len() == 0 {
            let msg = String::from_str("Messaging config '").concat(config.name.as_str()).concat("' must specify at least one server");
            proof {
                reveal_strlit("Messaging config '");
                reveal_strlit("' must specify at least one server");
            }
            return Err(NylonError::ConfigError(msg));
        }
        let mut options = NatsClientOptions::new(config.servers.clone());
        options.subject_prefix = config.subject_prefix.clone();
        options.request_timeout_ms = match config.request_timeout_ms {
            Some(t) => t,
            None => 500,
        };
        options.max_inflight = match plugin.max_inflight {
            Some(m) => m as usize,
            None => match config.max_inflight {
                Some(m) => m as usize,
                None => 1024,
            },
        };
        options.overflow_policy = match plugin.overflow_policy {
            Some(o) => o,
            None => match config.overflow_policy {
                Some(o) => o,
                None => OverflowPolicy::default_policy(),
            },
        };
        options.retry_policy = merge_retry_policy(config.retry.as_ref(), None);
        let empty: Vec<(String, String)> = Vec::new();
        proof {
            assert(pairs_view(empty@) =~= Seq::<(Seq<char>, Seq<char>)>::empty());
        }
        options.default_headers = match merge_headers(&empty, config.default_headers.as_ref()) {
            Some(h) => h,
            None => empty,
        };
        let per_phase = build_phase_policies(plugin.per_phase.as_ref(), config.retry.as_ref());
        let queue_group = match &plugin.group {
            Some(g) => {
                let t = trim_exec(g);
                if t.as_str().is_empty() {
                    String::from_str("default")
                } else {
                    g.clone()
                }
            },
            None => String::from_str("default"),
        };
        proof {
            reveal_strlit("default");
        }
        Ok(MessagingPlugin {
            plugin_name: plugin.name.clone(),
            config_name: config.name.clone(),
            queue_group,
            options,
            per_phase,
            auth: config.auth.clone(),
            tls: config.tls.clone(),
        })
    }

    pub fn plugin_name(&self) -> (r: &str)
        ensures
            r@ == self.plugin_name@,
    {
        self.plugin_name.as_str()
    }

    pub fn queue_group(&self) -> (r: &str)
        ensures
            r@ == self.queue_group@,
    {
        self.queue_group.as_str()
    }

    pub fn config_name(&self) -> (r: &str)
        ensures
            r@ == self.config_name@,
    {
        self.config_name.as_str()
    }

    pub fn options(&self) -> (r: &NatsClientOptions)
        ensures
            *r == self.options,
    {
        &self.options
    }

    pub fn per_phase(&self) -> (r: &Vec<(MessagingPhase, PhasePolicy)>)
        ensures
            *r == self.per_phase,
    {
        &self.per_phase
    }

    pub fn auth(&self) -> (r: Option<&MessagingAuthConfig>)
        ensures
            r == match &self.auth { Some(a) => Some(a), None => None::<&MessagingAuthConfig> },
    {
        self.auth.as_ref()
    }

    pub fn tls(&self) -> (r: Option<&MessagingTlsConfig>)
        ensures
            r == match &self.tls { Some(a) => Some(a), None => None::<&MessagingTlsConfig> },
    {
        self.tls.as_ref()
    }
}


/// The key of a plugin session in the request state: `plugin-entry`.
pub open spec fn spec_session_key(plugin_name: Seq<char>, entry: Seq<char>) -> Seq<char> {
    plugin_name + "-"@ + entry
}

/// The session id stored under a key: the first entry of that key, 0 when none.
pub open spec fn stored_session_id(ids: Seq<(String, u32)>, key: Seq<char>) -> u32
    decreases ids.len(),
{
    if ids.len() == 0 {
        0
    } else if ids[0].0@ == key {
        ids[0].1
    } else {
        stored_session_id(ids.drop_first(), key)
    }
}

/// `plugin-entry`
pub fn session_key(plugin_name: &str, entry: &str) -> (r: String)
    ensures
        r@ == spec_session_key(plugin_name@, entry@),
{
    proof {
        reveal_strlit("-");
    }
    String::from_str(plugin_name).concat("-").concat(entry)
}

fn find_session_id(ids: &Vec<(String, u32)>, key: &str) -> (r: u32)
    ensures
        r == stored_session_id(ids@, key@),
{
    let mut i: usize = 0;
    assert(ids@.subrange(0, ids@.len() as int) =~= ids@);
    while i < ids.len()
        invariant
            i <= ids@.len(),
            stored_session_id(ids@, key@) == stored_session_id(ids@.subrange(i as int, ids@.len() as int), key@),
        decreases ids.len() - i,
    {
        let ghost rest = ids@.subrange(i as int, ids@.len() as int);
        assert(rest.drop_first() =~= ids@.subrange(i + 1, ids@.len() as int));
        if text_eq(ids[i].0.as_str(), key) {
            return ids[i].1;
        }
        i = i + 1;
    }
    0
}

/// The session of `plugin_name`/`entry` in this request: the stored one, or a new
/// id from `ids` (stored at the end) when none is stored or the stored one is 0.
pub fn session_id_for(ctx: &mut NylonContext, ids: &mut SessionIds, plugin_name: &str, entry: &str) -> (r: u32)
    ensures
        stored_session_id(old(ctx).session_ids@, spec_session_key(plugin_name@, entry@)) != 0 ==> {
            &&& r == stored_session_id(old(ctx).session_ids@, spec_session_key(plugin_name@, entry@))
            &&& final(ctx).session_ids == old(ctx).session_ids
            &&& final(ids).peek() == old(ids).peek()
        },
        stored_session_id(old(ctx).session_ids@, spec_session_key(plugin_name@, entry@)) == 0 ==> {
            &&& r == old(ids).peek()
            &&& final(ids).peek() == (if old(ids).peek() == u32::MAX { 0 } else { (old(ids).peek() + 1) as u32 })
            &&& final(ctx).session_ids@.len() == old(ctx).session_ids@.len() + 1
            &&& final(ctx).session_ids@.subrange(0, old(ctx).session_ids@.len() as int) == old(ctx).session_ids@
            &&& final(ctx).session_ids@.last().0@ == spec_session_key(plugin_name@, entry@)
            &&& final(ctx).session_ids@.last().1 == r
        },
        final(ctx).add_response_header == old(ctx).add_response_header,
        final(ctx).set_response_status == old(ctx).set_response_status,
        final(ctx).set_response_body == old(ctx).set_response_body,
        final(ctx).remove_response_header == old(ctx).remove_response_header,
        final(ctx).client_ip == old(ctx).client_ip && final(ctx).params == old(ctx).params,
        final(ctx).host == old(ctx).host && final(ctx).port == old(ctx).port && final(ctx).tls == old(ctx).tls,
        final(ctx).read_body == old(ctx).read_body && final(ctx).request_body == old(ctx).request_body,
        final(ctx).request_timestamp == old(ctx).request_timestamp,
        final(ctx).error_message == old(ctx).error_message,
{
    let key = session_key(plugin_name, entry);
    let stored = find_session_id(&ctx.session_ids, key.as_str());
    if stored != 0 {
        return stored;
    }
    let id = ids.next_session_id();
    let ghost before = ctx.session_ids@;
    ctx.session_ids.push((key, id));
    assert(ctx.session_ids@.subrange(0, before.len() as int) =~= before);
    id
}

/// The request that opens a phase of a messaging plugin session: method 0, no data.
pub fn session_request(request_id: u128, session_id: u32, phase: PluginPhase, timestamp: u64) -> (r: PluginRequest)
    ensures
        r.version == PROTOCOL_VERSION,
        r.request_id == request_id,
        r.session_id == session_id,
        r.phase == phase.code(),
        r.method == 0,
        r.data@.len() == 0,
        r.timestamp == timestamp,
        r.headers.is_none(),
{
    PluginRequest {
        version: PROTOCOL_VERSION,
        request_id,
        session_id,
        phase: phase.to_u8(),
        method: 0,
        data: Vec::new(),
        timestamp,
        headers: None,
    }
}

pub open spec fn default_plugin_error() -> Seq<char> {
    "messaging plugin returned error"@
}

/// What a messaging plugin's answer means for the request: go on, end, or fail
/// with the plugin's error (a fixed message when it gives none).
pub fn session_outcome(response: &PluginResponse) -> (r: Result<PluginResult, NylonError>)
    ensures
        response.action == ResponseAction::Next ==> (r matches Ok(p) && !p.http_end && !p.stream_end),
        response.action == ResponseAction::End ==> (r matches Ok(p) && p.http_end && !p.stream_end),
        response.action == ResponseAction::Error ==> (r matches Err(NylonError::RuntimeError(m))
            && m@ == match response.error { Some(e) => e@, None => default_plugin_error() }),
{
    match response.action {
        ResponseAction::Next => Ok(PluginResult::new(false, false)),
        ResponseAction::End => Ok(PluginResult::new(true, false)),
        ResponseAction::Error => {
            let msg = match &response.error {
                Some(e) => e.clone(),
                None => String::from_str("messaging plugin returned error"),
            };
            proof {
                reveal_strlit("messaging plugin returned error");
            }
            Err(NylonError::RuntimeError(msg))
        },
    }
}

/// The proxy error for a failure of the messaging client, given its text.
pub fn map_messaging_error(plugin_name: &str, error_text: &str) -> (r: NylonError)
    ensures
        r matches NylonError::RuntimeError(m)
            && m@ == "Messaging plugin '"@ + plugin_name@ + "' error: "@ + error_text@,
{
    proof {
        reveal_strlit("Messaging plugin '");
        reveal_strlit("' error: ");
    }
    NylonError::RuntimeError(String::from_str("Messaging plugin '").concat(plugin_name).concat("' error: ").concat(error_text))
}

/// The proxy error for a message that could not be encoded or decoded, given its text.
pub fn map_protocol_error(plugin_name: &str, error_text: &str) -> (r: NylonError)
    ensures
        r matches NylonError::RuntimeError(m)
            && m@ == "Messaging plugin '"@ + plugin_name@ + "' protocol error: "@ + error_text@,
{
    proof {
        reveal_strlit("Messaging plugin '");
        reveal_strlit("' protocol error: ");
    }
    NylonError::RuntimeError(String::from_str("Messaging plugin '").concat(plugin_name).concat("' protocol error: ").concat(error_text))
}


/// The messaging plugins registered so far, by plugin name.
pub struct MessagingRegistry {
    entries: Vec<(String, MessagingPlugin)>,
}

pub open spec fn named_pairs(s: Seq<(String, MessagingPlugin)>) -> Seq<(Seq<char>, MessagingPlugin)> {
    s.map_values(|p: (String, MessagingPlugin)| (p.0@, p.1))
}

impl View for MessagingRegistry {
    type V = Map<Seq<char>, MessagingPlugin>;

    closed spec fn view(&self) -> Map<Seq<char>, MessagingPlugin> {
        pairs_map(named_pairs(self.entries@))
    }
}

impl MessagingRegistry {
    #[verifier::type_invariant]
    closed spec fn wf(self) -> bool {
        unique_keys(named_pairs(self.entries@))
    }

    /// A registry with no plugin.
    pub fn new() -> (r: MessagingRegistry)
        ensures
            r@ == Map::<Seq<char>, MessagingPlugin>::empty(),
    {
        let r = MessagingRegistry { entries: Vec::new() };
        assert(pairs_map(named_pairs(r.entries@)) =~= Map::<Seq<char>, MessagingPlugin>::empty());
        r
    }

    /// Registers `plugin` under `name`, replacing a plugin of the same name.
    pub fn insert(&mut self, name: String, plugin: MessagingPlugin)
        ensures
            final(self)@ == old(self)@.insert(name@, plugin),
    {
        proof {
            use_type_invariant(&*self);
        }
        let mut entries: Vec<(String, MessagingPlugin)> = Vec::new();
        std::mem::swap(&mut entries, &mut self.entries);
        let ghost e = entries@;
        let mut i: usize = 0;
        let mut found = false;
        while i < entries.len()
            invariant_except_break
                i <= entries.len(),
                !found,
                forall|x: int| 0 <= x < i ==> named_pairs(entries@)[x].0 != name@,
            invariant
                entries@ == e,
                unique_keys(named_pairs(e)),
            ensures
                found ==> i < entries.len() && named_pairs(entries@)[i as int].0 == name@,
                !found ==> forall|x: int| 0 <= x < entries.len() ==> named_pairs(entries@)[x].0 != name@,
            decreases entries.len() - i,
        {
            if entries[i].0 == name {
                found = true;
                break;
            }
            i = i + 1;
        }
        if found {
            proof {
                lemma_pairs_map_update(named_pairs(e), i as int, plugin);
            }
            entries.set(i, (name, plugin));
            proof {
                assert(named_pairs(entries@) =~= named_pairs(e).update(i as int, (name@, plugin)));
            }
        } else {
            proof {
                lemma_pairs_map_push(named_pairs(e), name@, plugin);
            }
            entries.push((name, plugin));
            proof {
                assert(named_pairs(entries@) =~= named_pairs(e).push((name@, plugin)));
            }
        }
        self.entries = entries;
    }
}

/// The last configuration of a name (a later one replaces an earlier one when stored).
pub open spec fn last_config(configs: Seq<MessagingConfig>, name: Seq<char>) -> Option<int>
    decreases configs.len(),
{
    if configs.len() == 0 {
        None
    } else if configs.last().name@ == name {
        Some(configs.len() - 1)
    } else {
        last_config(configs.drop_last(), name)
    }
}

pub open spec fn missing_reference_message(plugin: Seq<char>) -> Seq<char> {
    "Messaging plugin "@ + plugin + " must reference a messaging config"@
}

pub open spec fn store_uninitialized_message() -> Seq<char> {
    "Messaging configuration store not initialized. Define `messaging:` in the config before plugins."@
}

pub open spec fn unknown_config_message(config: Seq<char>, plugin: Seq<char>) -> Seq<char> {
    "Messaging config '"@ + config + "' referenced by plugin "@ + plugin + " not found"@
}

/// The messaging connection a plugin names, without surrounding whitespace.
pub open spec fn spec_reference(plugin: PluginItem) -> Option<Seq<char>> {
    match plugin.messaging {
        Some(m) => if trim_ws(m@).len() > 0 { Some(trim_ws(m@)) } else { None },
        None => None,
    }
}

fn find_last_config(configs: &Vec<MessagingConfig>, name: &str) -> (r: Option<usize>)
    ensures
        match r {
            Some(i) => i < configs@.len() && last_config(configs@, name@) == Some(i as int),
            None => last_config(configs@, name@).is_none(),
        },
{
    let mut i: usize = configs.len();
    assert(configs@.subrange(0, i as int) =~= configs@);
    while i > 0
        invariant
            i <= configs@.len(),
            last_config(configs@, name@) == last_config(configs@.subrange(0, i as int), name@),
        decreases i,
    {
        let ghost pre = configs@.subrange(0, i as int);
        assert(pre.drop_last() =~= configs@.subrange(0, i - 1));
        if text_eq(configs[i - 1].name.as_str(), name) {
            return Some(i - 1);
        }
        i = i - 1;
    }
    None
}

/// Registers a messaging plugin: it must name a messaging connection, the
/// connections must have been stored, and the named one must be among them.
pub fn register_plugin(
    plugin: &PluginItem,
    configs: Option<&Vec<MessagingConfig>>,
    registry: &mut MessagingRegistry,
) -> (r: Result<(), NylonError>)
    ensures
        spec_reference(*plugin).is_none() ==> (r matches Err(NylonError::ConfigError(m))
            && m@ == missing_reference_message(plugin.name@)),
        spec_reference(*plugin).is_some() && configs.is_none() ==> (r matches Err(NylonError::ConfigError(m))
            && m@ == store_uninitialized_message()),
        spec_reference(*plugin).is_some() && configs.is_some()
            && last_config(configs.unwrap()@, spec_reference(*plugin).unwrap()).is_none()
            ==> (r matches Err(NylonError::ConfigError(m))
                && m@ == unknown_config_message(spec_reference(*plugin).unwrap(), plugin.name@)),
        spec_reference(*plugin).is_some() && configs.is_some()
            && last_config(configs.unwrap()@, spec_reference(*plugin).unwrap()) is Some
            ==> {
                let c = configs.unwrap()@[last_config(configs.unwrap()@, spec_reference(*plugin).unwrap()).unwrap()];
                &&& (r is Ok <==> c.servers@.len() > 0)
                &&& r is Err ==> (r matches Err(NylonError::ConfigError(m)) && m@ == no_servers_message(c.name@))
                &&& r is Ok ==> final(registry)@.dom() == old(registry)@.dom().insert(plugin.name@)
                &&& r is Ok ==> final(registry)@[plugin.name@].config_name@ == c.name@
                &&& r is Ok ==> final(registry)@[plugin.name@].plugin_name@ == plugin.name@
            },
        r is Err ==> final(registry)@ == old(registry)@,
{
    let reference = match &plugin.messaging {
        Some(m) => {
            let t = trim_exec(m);
            if t.as_str().is_empty() { None } else { Some(t) }
        },
        None => None,
    };
    let name = match reference {
        Some(n) => n,
        None => {
            let msg = String::from_str("Messaging plugin ").concat(plugin.name.as_str()).concat(" must reference a messaging config");
            proof {
                reveal_strlit("Messaging plugin ");
                reveal_strlit(" must reference a messaging config");
            }
            return Err(NylonError::ConfigError(msg));
        },
    };
    let configs = match configs {
        Some(c) => c,
        None => {
            let msg = String::from_str("Messaging configuration store not initialized. Define `messaging:` in the config before plugins.");
            proof {
                reveal_strlit("Messaging configuration store not initialized. Define `messaging:` in the config before plugins.");
            }
            return Err(NylonError::ConfigError(msg));
        },
    };
    let index = match find_last_config(configs, name.as_str()) {
        Some(i) => i,
        None => {
            let msg = String::from_str("Messaging config '").concat(name.as_str()).concat("' referenced by plugin ")
                .concat(plugin.name.as_str()).concat(" not found");
            proof {
                reveal_strlit("Messaging config '");
                reveal_strlit("' referenced by plugin ");
                reveal_strlit(" not found");
            }
            return Err(NylonError::ConfigError(msg));
        },
    };
    let messaging_plugin = match MessagingPlugin::new(plugin, &configs[index]) {
        Ok(p) => p,
        Err(e) => {
            return Err(e);
        },
    };
    registry.insert(plugin.name.clone(), messaging_plugin);
    Ok(())
}

} // verus!
