//! Laws of settings: which texts set them, and what they are where nothing does.

use vstd::prelude::*;

use crate::config::{
    cluster_config, data_dir, data_dir_path, http_port, pool_connection_timeout, remoc_port,
    remoc_port_name, request_bundle_size, wait_on_no_connection, ClusterSettings,
};
use crate::text_laws::{digits, lemma_natural_worth, worth};

verus! {

/// The digits of a number, behind a plus sign or not.
pub open spec fn after_sign(text: Seq<char>) -> Seq<char> {
    if text.len() > 0 && text[0] == '+' {
        text.skip(1)
    } else {
        text
    }
}

/// A setting is a number between two others.
pub open spec fn sets(value: Option<&str>, min: int, max: int) -> bool {
    value matches Some(text) && digits(after_sign(text@)) && min <= worth(after_sign(text@)) <= max
}

/// The number that a setting is, or another one where it is none between two others.
pub open spec fn chosen(value: Option<&str>, min: int, max: int, default: int) -> int {
    if sets(value, min, max) {
        worth(after_sign(value->0@))
    } else {
        default
    }
}

proof fn lemma_setting(value: Option<&str>, max: nat)
    ensures
        crate::config::setting(value, max) is Some <==> sets(value, 0, max as int),
        crate::config::setting(value, max) matches Some(n) ==> n == worth(after_sign(value->0@)),
{
    if let Some(text) = value {
        lemma_natural_worth(text@);
    }
}

/// Ports, sizes and times are what is set, where it is a number that they can have.
pub proof fn lemma_numbers(
    value: Option<&str>,
    http: u16,
    remoc: u16,
    bundle: usize,
    wait: u64,
    timeout: u64,
)
    requires
        call_ensures(http_port, (value,), http),
        call_ensures(remoc_port, (value,), remoc),
        call_ensures(request_bundle_size, (value,), bundle),
        call_ensures(wait_on_no_connection, (value,), wait),
        call_ensures(pool_connection_timeout, (value,), timeout),
    ensures
        http == chosen(value, 0, 65535, 3030),
        remoc == chosen(value, 0, 65535, 3031),
        bundle == chosen(value, 0, usize::MAX as int, 50),
        wait == chosen(value, 0, u64::MAX as int, 100),
        timeout == chosen(value, 0, u64::MAX as int, 1000),
{
    lemma_setting(value, 65535);
    lemma_setting(value, usize::MAX as nat);
    lemma_setting(value, u64::MAX as nat);
}

/// Names are what is set. A directory begins at the root.
pub proof fn lemma_texts(value: Option<&str>, port: String, dir: String, path: String)
    requires
        call_ensures(remoc_port_name, (value,), port),
        call_ensures(data_dir, (value,), dir),
        call_ensures(data_dir_path, (value,), path),
    ensures
        value matches Some(text) ==> port@ == text@ && dir@ == text@,
        value is None ==> port@ == "tcp-remoc"@ && dir@ == "/tmp"@ && path@ == "/tmp"@,
        path@.len() > 0 && path@[0] == '/',
        value matches Some(text) ==> path@ == text@ || path@ == seq!['/'] + text@,
        value matches Some(text) ==> (path@ == text@ <==> text@.len() > 0 && text@[0] == '/'),
{
    reveal_strlit("/");
    reveal_strlit("/tmp");
    if let Some(text) = value {
        assert("/"@ =~= seq!['/']);
        if text@.len() > 0 {
            assert(text@.take(1)[0] == text@[0]);
            if text@[0] == '/' {
                assert(text@.take(1) =~= "/"@);
            }
        }
    }
}

/// Times of a cluster are set in seconds, more than ten; numbers of nodes are more than four.
/// What is not set so keeps its default.
pub proof fn lemma_cluster(
    defaults: ClusterSettings,
    update: Option<&str>,
    election: Option<&str>,
    most: Option<&str>,
    least: Option<&str>,
    r: ClusterSettings,
)
    requires
        crate::config::millis_or(update, defaults.update_interval) <= u64::MAX,
        crate::config::millis_or(election, defaults.election_timeout) <= u64::MAX,
        call_ensures(cluster_config, (defaults, update, election, most, least), r),
    ensures
        sets(update, 11, u64::MAX as int) ==> r.update_interval == worth(after_sign(update->0@))
            * 1000,
        !sets(update, 11, u64::MAX as int) ==> r.update_interval == defaults.update_interval,
        sets(election, 11, u64::MAX as int) ==> r.election_timeout == worth(
            after_sign(election->0@),
        ) * 1000,
        !sets(election, 11, u64::MAX as int) ==> r.election_timeout == defaults.election_timeout,
        r.max_node == chosen(most, 5, usize::MAX as int, defaults.max_node as int),
        r.min_node == chosen(least, 5, usize::MAX as int, defaults.min_node as int),
{
    lemma_setting(update, u64::MAX as nat);
    lemma_setting(election, u64::MAX as nat);
    lemma_setting(most, usize::MAX as nat);
    lemma_setting(least, usize::MAX as nat);
}

} // verus!
