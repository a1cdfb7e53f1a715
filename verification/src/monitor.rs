//! What the application has told the monitor: where to report to, which keys
//! to redact on top of the built-in ones, and the hook that sees every report.
use crate::keys::{normalize_key, normalized, texts};
use crate::text::{same_text, trim_end, without_trailing};
use vstd::prelude::*;

verus! {

#[derive(Clone, Debug)]
pub struct Config {
    pub url: String,
    /// Optional only for open self-hosted ingestion. Hosted Octri requires it.
    pub token: Option<String>,
    pub environment: String,
    pub release: Option<String>,
}

/// The settings of a monitor. `H` is the type of the hook.
pub struct Monitor<H> {
    pub config: Option<Config>,
    /// Normalized key names, none of them empty and none of them twice.
    pub extra_scrub_keys: Vec<String>,
    pub before_send: Option<H>,
}

/// The normalized names of `fields`, added to `keys` where they are not empty
/// and not there yet.
pub open spec fn with_keys(keys: Seq<Seq<char>>, fields: Seq<Seq<char>>) -> Seq<Seq<char>>
    decreases fields.len(),
{
    if fields.len() == 0 {
        keys
    } else {
        let before = with_keys(keys, fields.drop_last());
        let key = normalized(fields.last());
        if key.len() == 0 || before.contains(key) {
            before
        } else {
            before.push(key)
        }
    }
}

/// The texts of a list of string slices.
pub open spec fn slices(strings: Seq<&str>) -> Seq<Seq<char>> {
    strings.map_values(|s: &str| s@)
}

impl<H> Monitor<H> {
    /// A monitor that was told nothing yet, and reports nothing.
    pub fn new() -> (monitor: Self)
        ensures
            monitor.config is None,
            monitor.extra_scrub_keys@ == Seq::<String>::empty(),
            monitor.before_send is None,
            monitor.wf(),
    {
        Monitor { config: None, extra_scrub_keys: Vec::new(), before_send: None }
    }

    /// The key names that were added to the built-in list.
    pub open spec fn extra(&self) -> Seq<Seq<char>> {
        texts(self.extra_scrub_keys@)
    }

    /// Every added key is normalized and not empty, and none is there twice.
    pub open spec fn wf(&self) -> bool {
        &&& forall|i: int|
            0 <= i < self.extra().len() ==> {
                let key = #[trigger] self.extra()[i];
                key.len() > 0 && normalized(key) == key
            }
        &&& self.extra().no_duplicates()
    }
}

/// Configure Octri once during application startup.
pub fn init<H>(monitor: &mut Monitor<H>, config: Config)
    ensures
        final(monitor).config matches Some(kept) && {
            &&& kept.url@ == without_trailing(config.url@, '/')
            &&& kept.token == config.token
            &&& kept.environment == config.environment
            &&& kept.release == config.release
        },
        final(monitor).extra_scrub_keys == old(monitor).extra_scrub_keys,
        final(monitor).before_send == old(monitor).before_send,
{
    let url: String = trim_end(config.url.as_str(), '/');
    monitor.config =
    Some(
        Config {
            url,
            token: config.token,
            environment: config.environment,
            release: config.release,
        },
    );
}

/// Redacts more key names, on top of the built-in list. Matching ignores case
/// and separators and is a substring test, so `account` also covers
/// `account_number`.
pub fn add_scrub_fields<H>(monitor: &mut Monitor<H>, fields: &[&str])
    ensures
        final(monitor).extra() == with_keys(old(monitor).extra(), slices(fields@)),
        old(monitor).wf() ==> final(monitor).wf(),
        final(monitor).config == old(monitor).config,
        final(monitor).before_send == old(monitor).before_send,
{
    let mut i: usize = 0;
    assert(slices(fields@).take(0).len() == 0);
    while i < fields.len()
        invariant
            i <= fields@.len(),
            monitor.extra() == with_keys(old(monitor).extra(), slices(fields@).take(i as int)),
            old(monitor).wf() ==> monitor.wf(),
            monitor.config == old(monitor).config,
            monitor.before_send == old(monitor).before_send,
        decreases fields@.len() - i,
    {
        let ghost read = slices(fields@).take(i + 1);
        assert(read.drop_last() == slices(fields@).take(i as int));
        let key: String = normalize_key(fields[i]);
        if !key.as_str().is_empty() && !has_text(&monitor.extra_scrub_keys, key.as_str()) {
            let ghost before = monitor.extra();
            let ghost added = key@;
            monitor.extra_scrub_keys.push(key);
            assert(monitor.extra() =~= before.push(added));
            proof {
                crate::keys::lemma_normalized_idempotent(fields@[i as int]@);
            }
        }
        i += 1;
    }
    assert(slices(fields@).take(i as int) == slices(fields@));
}

/// Whether `text` is one of `strings`.
fn has_text(strings: &Vec<String>, text: &str) -> (result: bool)
    ensures
        result == texts(strings@).contains(text@),
{
    let mut i: usize = 0;
    while i < strings.len()
        invariant
            i <= strings@.len(),
            forall|k: int| 0 <= k < i ==> #[trigger] texts(strings@)[k] != text@,
        decreases strings@.len() - i,
    {
        if same_text(strings[i].as_str(), text) {
            assert(texts(strings@)[i as int] == text@);
            return true;
        }
        i += 1;
    }
    false
}

/// Runs a hook on every payload just before it is sent. The hook returns the
/// payload to send it, or `None` to drop the event.
///
/// Redaction still runs afterwards, so a hook cannot leak a credential by
/// accident. Use [`clear_before_send`] to remove it.
pub fn set_before_send<H>(monitor: &mut Monitor<H>, hook: H)
    ensures
        final(monitor).before_send == Some(hook),
        final(monitor).config == old(monitor).config,
        final(monitor).extra_scrub_keys == old(monitor).extra_scrub_keys,
{
    monitor.before_send = Some(hook);
}

/// Removes the hook installed by [`set_before_send`].
pub fn clear_before_send<H>(monitor: &mut Monitor<H>)
    ensures
        final(monitor).before_send is None,
        final(monitor).config == old(monitor).config,
        final(monitor).extra_scrub_keys == old(monitor).extra_scrub_keys,
{
    monitor.before_send = None;
}

} // verus!
