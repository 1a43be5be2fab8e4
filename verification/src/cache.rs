//! The single-slot cache of the tokenizer, keyed by a hash of the configuration.

use vstd::prelude::*;
use std::hash::{DefaultHasher, Hasher};
use vstd::std_specs::hash::DefaultHasherAdditionalSpecFns;
use crate::model::{Config, ConfigView, text_views};

verus! {

/// The `n` low bytes of `x`, the lowest first.
pub open spec fn low_bytes(x: u64, n: nat) -> Seq<u8>
    decreases n,
{
    if n == 0 {
        Seq::empty()
    } else {
        seq![(x % 256) as u8] + low_bytes(x / 256, (n - 1) as nat)
    }
}

/// The byte that is fed to the hasher after every text, so that a text cannot
/// run into the next.
pub open spec fn text_end() -> Seq<u8> {
    seq![0xffu8]
}

/// What a list of texts feeds to the hasher: its length, then each text with
/// the end byte after it.
pub open spec fn list_input(texts: Seq<Seq<char>>) -> Seq<Seq<u8>> {
    seq![low_bytes(texts.len() as u64, 8)] + Seq::new(
        2 * texts.len(),
        |i: int|
            if i % 2 == 0 {
                vstd::utf8::encode_utf8(texts[i / 2])
            } else {
                text_end()
            },
    )
}

/// The hash of one text.
pub open spec fn text_hash(text: Seq<char>) -> u64 {
    DefaultHasher::spec_finish(seq![vstd::utf8::encode_utf8(text), text_end()])
}

/// Folds the hash of one more text into the hash of a set.
pub open spec fn mix() -> spec_fn(u64, Seq<char>) -> u64 {
    |acc: u64, text: Seq<char>| acc ^ text_hash(text)
}

/// The hash of a set of texts: the hashes of its members, combined in a way
/// that no order enters.
pub open spec fn set_hash(texts: Set<Seq<char>>) -> u64 {
    texts.fold(0u64, mix())
}

/// What a configuration feeds to the hasher: the threshold, the proper nouns
/// in their order, and the hashes of the two ignore sets.
pub open spec fn hash_input(c: ConfigView) -> Seq<Seq<u8>> {
    seq![low_bytes(c.distance_threshold as u64, 8)] + list_input(c.proper_nouns) + seq![
        low_bytes(set_hash(c.ignore_pos), 8),
        low_bytes(set_hash(c.ignore_words), 8),
    ]
}

/// The hash of a configuration.
pub open spec fn config_hash(c: ConfigView) -> u64 {
    DefaultHasher::spec_finish(hash_input(c))
}

/// Feeds the eight low bytes of `x` to `hasher` in one write.
fn write_number(hasher: &mut DefaultHasher, x: u64)
    ensures
        final(hasher)@ == old(hasher)@.push(low_bytes(x, 8)),
{
    let mut bytes: Vec<u8> = Vec::new();
    let mut rest: u64 = x;
    let mut k: usize = 0;
    while k < 8
        invariant
            k <= 8,
            bytes@ + low_bytes(rest, (8 - k) as nat) == low_bytes(x, 8),
        decreases 8 - k,
    {
        assert(low_bytes(rest, (8 - k) as nat) == seq![(rest % 256) as u8] + low_bytes(
            rest / 256,
            (8 - k - 1) as nat,
        ));
        let ghost before = bytes@;
        bytes.push((rest % 256) as u8);
        assert(bytes@ + low_bytes(rest / 256, (8 - k - 1) as nat) =~= before + (seq![
            (rest % 256) as u8,
        ] + low_bytes(rest / 256, (8 - k - 1) as nat)));
        rest = rest / 256;
        k += 1;
    }
    assert(bytes@ =~= bytes@ + low_bytes(rest, 0));
    hasher.write(bytes.as_slice());
}

/// Feeds `text` to `hasher`, and the end byte after it.
fn write_text(hasher: &mut DefaultHasher, text: &str)
    ensures
        final(hasher)@ == old(hasher)@.push(vstd::utf8::encode_utf8(text@)).push(text_end()),
{
    hasher.write(text.as_bytes());
    let mut end: Vec<u8> = Vec::new();
    end.push(0xffu8);
    assert(end@ =~= text_end());
    hasher.write(end.as_slice());
}

/// Feeds a list of texts to `hasher`.
fn write_list(hasher: &mut DefaultHasher, texts: &Vec<String>)
    ensures
        final(hasher)@ == old(hasher)@ + list_input(text_views(texts@)),
{
    let ghost start = hasher@;
    let ghost views = text_views(texts@);
    let ghost fed = |i: int|
        if i % 2 == 0 {
            vstd::utf8::encode_utf8(views[i / 2])
        } else {
            text_end()
        };
    write_number(hasher, texts.len() as u64);
    let mut i: usize = 0;
    while i < texts.len()
        invariant
            i <= texts.len(),
            views == text_views(texts@),
            fed == |i: int|
                if i % 2 == 0 {
                    vstd::utf8::encode_utf8(views[i / 2])
                } else {
                    text_end()
                },
            hasher@ == start.push(low_bytes(texts.len() as u64, 8)) + Seq::new((2 * i) as nat, fed),
        decreases texts.len() - i,
    {
        write_text(hasher, texts[i].as_str());
        assert(texts@[i as int]@ == views[i as int]);
        assert(hasher@ =~= start.push(low_bytes(texts.len() as u64, 8)) + Seq::new(
            (2 * (i + 1)) as nat,
            fed,
        ));
        i += 1;
    }
    assert(hasher@ =~= start + list_input(views));
}

/// The hash of `text`.
fn hash_text(text: &str) -> (hash: u64)
    ensures
        hash == text_hash(text@),
{
    let mut hasher = DefaultHasher::new();
    write_text(&mut hasher, text);
    assert(hasher@ =~= seq![vstd::utf8::encode_utf8(text@), text_end()]);
    hasher.finish()
}

/// Whether the text at place `i` of `texts` stands at an earlier place too.
fn occurs_before(texts: &Vec<String>, i: usize) -> (found: bool)
    requires
        i < texts.len(),
    ensures
        found == text_views(texts@).take(i as int).contains(texts@[i as int]@),
{
    let ghost views = text_views(texts@);
    let mut k: usize = 0;
    while k < i
        invariant
            k <= i < texts.len(),
            views == text_views(texts@),
            forall|j: int| 0 <= j < k ==> views[j] != texts@[i as int]@,
        decreases i - k,
    {
        if texts[k] == texts[i] {
            assert(views.take(i as int)[k as int] == texts@[i as int]@);
            return true;
        }
        assert(views[k as int] == texts@[k as int]@);
        k += 1;
    }
    assert forall|j: int| 0 <= j < views.take(i as int).len() implies views.take(i as int)[j]
        != texts@[i as int]@ by {
        assert(views.take(i as int)[j] == views[j]);
    }
    false
}

/// Folding in the hashes of texts gives the same whatever the order.
proof fn lemma_mix_commutes()
    ensures
        vstd::set::fold::is_fun_commutative(mix()),
{
    assert forall|a1: Seq<char>, a2: Seq<char>, b: u64| #[trigger]
        mix()(mix()(b, a2), a1) == mix()(mix()(b, a1), a2) by {
        let x = text_hash(a1);
        let y = text_hash(a2);
        assert((b ^ y) ^ x == (b ^ x) ^ y) by (bit_vector);
    }
}

/// The hash of the set of the texts of a list.
fn hash_set(texts: &Vec<String>) -> (hash: u64)
    ensures
        hash == set_hash(text_views(texts@).to_set()),
{
    let ghost views = text_views(texts@);
    let mut hash: u64 = 0;
    let mut i: usize = 0;
    proof {
        vstd::set::fold::lemma_fold_empty::<Seq<char>, u64>(0u64, mix());
        assert(views.take(0).to_set() =~= Set::<Seq<char>>::empty());
    }
    while i < texts.len()
        invariant
            i <= texts.len(),
            views == text_views(texts@),
            hash == set_hash(views.take(i as int).to_set()),
        decreases texts.len() - i,
    {
        let ghost shorter = views.take(i as int);
        let ghost longer = views.take(i + 1);
        let ghost seen = shorter.to_set();
        let ghost text = views[i as int];
        assert(text == texts@[i as int]@);
        let repeated = occurs_before(texts, i);
        proof {
            assert forall|t: Seq<char>| longer.contains(t) <==> (shorter.contains(t) || t == text) by {
                if longer.contains(t) {
                    let j = choose|j: int| 0 <= j < longer.len() && longer[j] == t;
                    if j < i {
                        assert(shorter[j] == t);
                    }
                }
                if shorter.contains(t) {
                    let j = choose|j: int| 0 <= j < shorter.len() && shorter[j] == t;
                    assert(longer[j] == t);
                }
                if t == text {
                    assert(longer[i as int] == t);
                }
            }
        }
        if !repeated {
            let h = hash_text(texts[i].as_str());
            proof {
                lemma_mix_commutes();
                vstd::seq_lib::seq_to_set_is_finite(shorter);
                vstd::set::fold::lemma_fold_insert(seen, 0u64, mix(), text);
                assert(longer.to_set() =~= seen.insert(text));
            }
            hash = hash ^ h;
        } else {
            assert(longer.to_set() =~= seen);
        }
        i += 1;
    }
    assert(views.take(texts.len() as int) =~= views);
    hash
}

/// The hash of `config`, the key under which its tokenizer is cached.  Two
/// configurations with the same threshold, the same proper nouns in the same
/// order and the same sets of ignored entries have the same hash.
pub fn calculate_hash(config: &Config) -> (hash: u64)
    ensures
        hash == config_hash(config@),
{
    let mut hasher = DefaultHasher::new();
    write_number(&mut hasher, config.distance_threshold as u64);
    write_list(&mut hasher, &config.proper_nouns);
    write_number(&mut hasher, hash_set(&config.ignore_pos));
    write_number(&mut hasher, hash_set(&config.ignore_words));
    assert(hasher@ =~= hash_input(config@));
    hasher.finish()
}

/// The hash of a configuration does not depend on the order of its ignore
/// lists, nor on how often an entry is listed: configurations that agree on
/// the threshold, the proper nouns and the two ignore sets share a hash.
pub proof fn lemma_hash_of_equal_sets(a: ConfigView, b: ConfigView)
    requires
        a.distance_threshold == b.distance_threshold,
        a.proper_nouns =~= b.proper_nouns,
        a.ignore_pos =~= b.ignore_pos,
        a.ignore_words =~= b.ignore_words,
    ensures
        config_hash(a) == config_hash(b),
{
}

/// What a request has to do.
#[derive(Clone, Copy, Debug, PartialEq, Eq, Structural)]
pub enum CacheAction {
    /// The stored resource was built for this configuration: use it.
    Reuse,
    /// The slot is empty or was built for another configuration: build anew.
    Rebuild,
}

/// What a request for `hash` has to do when the slot was filled under `stored`.
pub open spec fn decide(stored: Option<u64>, hash: u64) -> CacheAction {
    if stored == Some(hash) {
        CacheAction::Reuse
    } else {
        CacheAction::Rebuild
    }
}

/// A slot for one resource, with the hash of the configuration it was built
/// for.  The owner serialises access to it.
pub struct ResourceCache<R> {
    pub slot: Option<(u64, R)>,
}

impl<R> ResourceCache<R> {
    /// The hash under which the slot is filled, if it is.
    pub open spec fn stored(&self) -> Option<u64> {
        match self.slot {
            Some((hash, _)) => Some(hash),
            None => None,
        }
    }

    /// An empty cache.
    pub fn new() -> (cache: Self)
        ensures
            cache.slot is None,
    {
        ResourceCache { slot: None }
    }

    /// What a request for `hash` has to do.  The slot is not touched, so a
    /// build that fails leaves the cache as it was.
    pub fn request(&self, hash: u64) -> (action: CacheAction)
        ensures
            action == decide(self.stored(), hash),
    {
        match &self.slot {
            Some((stored, _)) => if *stored == hash {
                CacheAction::Reuse
            } else {
                CacheAction::Rebuild
            },
            None => CacheAction::Rebuild,
        }
    }

    /// Replaces whatever the slot held by `resource`, built for `hash`.
    pub fn publish(&mut self, hash: u64, resource: R)
        ensures
            final(self).slot == Some((hash, resource)),
    {
        self.slot = Some((hash, resource));
    }

    /// Takes in the outcome of a build for `hash`: a resource that was built
    /// replaces whatever the slot held, and a build that failed leaves the slot
    /// as it was.
    pub fn complete(&mut self, hash: u64, built: Option<R>) -> (ready: bool)
        ensures
            ready == built is Some,
            match built {
                Some(resource) => final(self).slot == Some((hash, resource)),
                None => final(self).slot == old(self).slot,
            },
    {
        match built {
            Some(resource) => {
                self.publish(hash, resource);
                true
            },
            None => false,
        }
    }

    /// Serves a request for `hash`.  Where the slot was filled under `hash`
    /// it is left untouched and nothing is built.  Otherwise `build` is called
    /// once: what it built replaces whatever the slot held, and where it failed
    /// the slot stays as it was and its error is handed on.
    pub fn serve<E, F: FnOnce() -> Result<R, E>>(&mut self, hash: u64, build: F) -> (r: Result<(), E>)
        requires
            build.requires(()),
        ensures
            match decide(old(self).stored(), hash) {
                CacheAction::Reuse => r is Ok && final(self).slot == old(self).slot,
                CacheAction::Rebuild => match r {
                    Ok(_) => final(self).slot is Some && build.ensures(
                        (),
                        Ok(final(self).slot->Some_0.1),
                    ),
                    Err(e) => final(self).slot == old(self).slot && build.ensures((), Err(e)),
                },
            },
            r is Ok ==> final(self).stored() == Some(hash),
    {
        match self.request(hash) {
            CacheAction::Reuse => Ok(()),
            CacheAction::Rebuild => match build() {
                Ok(resource) => {
                    self.publish(hash, resource);
                    Ok(())
                },
                Err(e) => Err(e),
            },
        }
    }

    /// The stored resource.
    pub fn resource(&self) -> (r: Option<&R>)
        ensures
            match r {
                Some(res) => self.slot is Some && *res == self.slot->Some_0.1,
                None => self.slot is None,
            },
    {
        match &self.slot {
            Some((_, res)) => Some(res),
            None => None,
        }
    }
}

/// After a resource was published under `hash`, a request for `hash` reuses it,
/// and a request for any other hash rebuilds; an empty slot always rebuilds.
/// So of two requests in a row for one configuration the second builds nothing,
/// and a request for a changed configuration builds once.
pub proof fn lemma_request_after_publish(hash: u64, other: u64)
    ensures
        decide(Some(hash), hash) == CacheAction::Reuse,
        other != hash ==> decide(Some(hash), other) == CacheAction::Rebuild,
        decide(None, hash) == CacheAction::Rebuild,
{
}

} // verus!
