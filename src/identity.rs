//! Player identities: the profile that the lookup service returns for an id,
//! the decoding of its cosmetic reference, and the cache that resolves each id
//! at most once at a time.
use vstd::prelude::*;

use crate::entries::{entries_map, find_entry, has_key, keys_unique, lemma_push_entry};
use crate::error::DatabaseError;

verus! {

/// One property entry of a profile.
#[derive(Debug)]
pub struct Properties {
    pub name: String,
    pub value: String,
    pub signature: Option<String>,
}

/// The identity that the lookup service gives for an id.
#[derive(Debug)]
pub struct Profile {
    pub id: String,
    pub name: String,
    pub properties: Vec<Properties>,
}

/// The bytes that a text in standard, padded base64 encodes.
pub uninterp spec fn base64_decoded(text: Seq<char>) -> Option<Seq<u8>>;

/// The string found at a JSON pointer in a JSON document given as bytes.
pub uninterp spec fn json_str_at(document: Seq<u8>, pointer: Seq<char>) -> Option<Seq<char>>;

/// Relies on base64's `Engine::decode` with the `STANDARD` engine: the decoded
/// bytes, or an error for text that is not valid padded base64.
#[verifier::external_body]
fn decode_base64(text: &str) -> (r: Option<Vec<u8>>)
    ensures
        match r {
            Some(bytes) => base64_decoded(text@) == Some(bytes@),
            None => base64_decoded(text@) is None,
        },
{
    base64::Engine::decode(&base64::engine::general_purpose::STANDARD, text).ok()
}

/// Relies on `serde_json::from_slice` into a `serde_json::Value`, then
/// `Value::pointer` and `Value::as_str`: the string at `pointer`, or nothing
/// where the bytes are no JSON document or hold no string there.
#[verifier::external_body]
fn string_at_pointer(document: &Vec<u8>, pointer: &str) -> (r: Option<String>)
    ensures
        match r {
            Some(s) => json_str_at(document@, pointer@) == Some(s@),
            None => json_str_at(document@, pointer@) is None,
        },
{
    let value: serde_json::Value = serde_json::from_slice(document.as_slice()).ok()?;
    value.pointer(pointer).and_then(serde_json::Value::as_str).map(|s| s.to_string())
}

/// Where the skin URL stands in a decoded texture payload.
pub open spec fn skin_url_pointer() -> Seq<char> {
    "/textures/SKIN/url"@
}

impl Profile {
    /// The skin URL of a profile: the first property's value, base64-decoded,
    /// read as JSON at `/textures/SKIN/url`.
    pub open spec fn skin_url_spec(&self) -> Option<Seq<char>> {
        if self.properties@.len() == 0 {
            None
        } else {
            match base64_decoded(self.properties@[0].value@) {
                Some(payload) => json_str_at(payload, skin_url_pointer()),
                None => None,
            }
        }
    }

    /// Decodes the skin URL; fails with `IdentityDecodeError` where the profile
    /// has no property, the value is no base64, or the payload holds no URL.
    pub fn get_skin_url(&self) -> (r: Result<String, DatabaseError>)
        ensures
            match r {
                Ok(url) => self.skin_url_spec() == Some(url@),
                Err(e) => self.skin_url_spec() is None && e == DatabaseError::IdentityDecodeError,
            },
    {
        if self.properties.len() == 0 {
            return Err(DatabaseError::IdentityDecodeError);
        }
        let payload = match decode_base64(self.properties[0].value.as_str()) {
            Some(bytes) => bytes,
            None => {
                return Err(DatabaseError::IdentityDecodeError);
            },
        };
        match string_at_pointer(&payload, "/textures/SKIN/url") {
            Some(url) => Ok(url),
            None => Err(DatabaseError::IdentityDecodeError),
        }
    }
}

/// What a caller that needs an id's profile does next.
#[derive(Debug, Clone, Copy, PartialEq, Eq, Structural)]
pub enum ResolveStep {
    /// The profile is cached: read it with `get`.
    Ready,
    /// This caller performs the lookup and reports it with `complete`.
    Fetch,
    /// Another caller is looking it up: wait for it, then begin again.
    Wait,
}

/// The step that `begin` takes for `id`, given the resolved ids and those whose
/// lookup is under way.
pub open spec fn next_step(
    resolved: Map<Seq<char>, Profile>,
    pending: Set<Seq<char>>,
    id: Seq<char>,
) -> ResolveStep {
    if resolved.contains_key(id) {
        ResolveStep::Ready
    } else if pending.contains(id) {
        ResolveStep::Wait
    } else {
        ResolveStep::Fetch
    }
}

/// The ids under way after `begin` took `step` for `id`.
pub open spec fn pending_after(pending: Set<Seq<char>>, id: Seq<char>, step: ResolveStep) -> Set<
    Seq<char>,
> {
    if step == ResolveStep::Fetch {
        pending.insert(id)
    } else {
        pending
    }
}

/// How many of `k` successive `begin` calls for `id`, with no `complete` among
/// them, are told to fetch.
pub open spec fn fetches_among(
    resolved: Map<Seq<char>, Profile>,
    pending: Set<Seq<char>>,
    id: Seq<char>,
    k: nat,
) -> nat
    decreases k,
{
    if k == 0 {
        0
    } else {
        let step = next_step(resolved, pending, id);
        (if step == ResolveStep::Fetch {
            1nat
        } else {
            0nat
        }) + fetches_among(resolved, pending_after(pending, id, step), id, (k - 1) as nat)
    }
}

/// Single flight: of any number of callers that ask for the same id before its
/// lookup completes, exactly one is told to fetch when the id is neither cached
/// nor under way, and none otherwise.
pub proof fn lemma_single_flight(
    resolved: Map<Seq<char>, Profile>,
    pending: Set<Seq<char>>,
    id: Seq<char>,
    k: nat,
)
    requires
        k >= 1,
    ensures
        fetches_among(resolved, pending, id, k) == (if resolved.contains_key(id) || pending.contains(
            id,
        ) {
            0nat
        } else {
            1nat
        }),
    decreases k,
{
    let step = next_step(resolved, pending, id);
    if k == 1 {
        assert(fetches_among(resolved, pending_after(pending, id, step), id, 0) == 0);
    } else {
        lemma_single_flight(resolved, pending_after(pending, id, step), id, (k - 1) as nat);
    }
}

/// Some string of `s` has the view `k`.
pub open spec fn contains_name(s: Seq<String>, k: Seq<char>) -> bool {
    exists|i: int| 0 <= i < s.len() && #[trigger] s[i]@ == k
}

/// Profiles resolved so far, and the ids whose lookup is under way.
#[derive(Debug)]
pub struct ProfileCache {
    resolved: Vec<(String, Profile)>,
    pending: Vec<String>,
}

impl ProfileCache {
    /// The resolved profiles by id.
    pub closed spec fn resolved_map(&self) -> Map<Seq<char>, Profile> {
        entries_map(self.resolved@)
    }

    /// The ids whose lookup is under way.
    pub closed spec fn pending_set(&self) -> Set<Seq<char>> {
        Set::new(|k: Seq<char>| contains_name(self.pending@, k))
    }

    pub closed spec fn wf(&self) -> bool {
        &&& keys_unique(self.resolved@)
        &&& forall|i: int| 0 <= i < self.pending@.len() ==> !has_key(self.resolved@, #[trigger] self.pending@[i]@)
    }

    /// An empty cache.
    pub fn new() -> (r: ProfileCache)
        ensures
            r.wf(),
            r.resolved_map() == Map::<Seq<char>, Profile>::empty(),
            r.pending_set() == Set::<Seq<char>>::empty(),
    {
        let r = ProfileCache { resolved: Vec::new(), pending: Vec::new() };
        assert(r.resolved_map() =~= Map::<Seq<char>, Profile>::empty());
        assert(r.pending_set() =~= Set::<Seq<char>>::empty());
        r
    }

    /// The cached profile of `id`, if it has been resolved.
    pub fn get(&self, id: &str) -> (r: Option<&Profile>)
        requires
            self.wf(),
        ensures
            match r {
                Some(p) => self.resolved_map().contains_key(id@) && *p == self.resolved_map()[id@],
                None => !self.resolved_map().contains_key(id@),
            },
    {
        match find_entry(&self.resolved, id) {
            Some(i) => {
                proof {
                    crate::entries::lemma_entry_in_map(self.resolved@, i as int);
                }
                Some(&self.resolved[i].1)
            },
            None => None,
        }
    }

    fn find_pending(&self, id: &str) -> (r: Option<usize>)
        ensures
            match r {
                Some(i) => i < self.pending@.len() && self.pending@[i as int]@ == id@,
                None => !self.pending_set().contains(id@),
            },
    {
        let wanted = String::from_str(id);
        let mut i: usize = 0;
        while i < self.pending.len()
            invariant
                i <= self.pending@.len(),
                wanted@ == id@,
                forall|j: int| 0 <= j < i ==> #[trigger] self.pending@[j]@ != id@,
            decreases self.pending@.len() - i,
        {
            if self.pending[i] == wanted {
                return Some(i);
            }
            i = i + 1;
        }
        None
    }

    /// Starts a caller's request for `id`'s profile. Only a caller told to
    /// `Fetch` looks the id up; from then on the id is under way and every other
    /// caller is told to `Wait`, until `complete` is called for it.
    pub fn begin(&mut self, id: &str) -> (r: ResolveStep)
        requires
            old(self).wf(),
        ensures
            final(self).wf(),
            r == next_step(old(self).resolved_map(), old(self).pending_set(), id@),
            final(self).resolved_map() == old(self).resolved_map(),
            final(self).pending_set() == pending_after(old(self).pending_set(), id@, r),
    {
        if self.get(id).is_some() {
            return ResolveStep::Ready;
        }
        if self.find_pending(id).is_some() {
            return ResolveStep::Wait;
        }
        let ghost before = self.pending@;
        self.pending.push(String::from_str(id));
        proof {
            assert forall|k: Seq<char>| #[trigger] self.pending_set().contains(k) <==> old(
                self,
            ).pending_set().insert(id@).contains(k) by {
                if old(self).pending_set().contains(k) {
                    let i = choose|i: int| 0 <= i < before.len() && #[trigger] before[i]@ == k;
                    assert(self.pending@[i] == before[i]);
                }
                if k == id@ {
                    assert(self.pending@[before.len() as int]@ == id@);
                }
                if self.pending_set().contains(k) && k != id@ {
                    let i = choose|i: int| 0 <= i < self.pending@.len() && #[trigger] self.pending@[i]@ == k;
                    assert(i < before.len());
                    assert(self.pending@[i] == before[i]);
                }
            }
            assert(self.pending_set() =~= old(self).pending_set().insert(id@));
            assert forall|i: int| 0 <= i < self.pending@.len() implies !has_key(self.resolved@, #[trigger] self.pending@[i]@) by {
                if i < before.len() {
                    assert(self.pending@[i] == before[i]);
                }
            }
        }
        ResolveStep::Fetch
    }

    /// Reports the lookup of `id`. The id is no longer under way. A profile that
    /// was found is kept (a profile already cached for the id stays as it is); a
    /// failure caches nothing, so that a later request fetches again.
    pub fn complete(&mut self, id: &str, outcome: Result<Profile, DatabaseError>)
        requires
            old(self).wf(),
        ensures
            final(self).wf(),
            final(self).pending_set() == old(self).pending_set().remove(id@),
            final(self).resolved_map() == (match outcome {
                Ok(p) => if old(self).resolved_map().contains_key(id@) {
                    old(self).resolved_map()
                } else {
                    old(self).resolved_map().insert(id@, p)
                },
                Err(_) => old(self).resolved_map(),
            }),
    {
        self.remove_pending(id);
        match outcome {
            Ok(profile) => {
                if find_entry(&self.resolved, id).is_none() {
                    let ghost before = self.resolved@;
                    let entry = (String::from_str(id), profile);
                    proof {
                        lemma_push_entry(before, entry);
                    }
                    self.resolved.push(entry);
                    proof {
                        assert forall|i: int| 0 <= i < self.pending@.len() implies !has_key(self.resolved@, #[trigger] self.pending@[i]@) by {
                            let k = self.pending@[i]@;
                            if has_key(self.resolved@, k) {
                                let j = choose|j: int| 0 <= j < self.resolved@.len() && #[trigger] self.resolved@[j].0@ == k;
                                if j < before.len() {
                                    assert(self.resolved@[j] == before[j]);
                                    assert(has_key(before, k));
                                } else {
                                    assert(k == id@);
                                    assert(self.pending_set().contains(k));
                                }
                            }
                        }
                    }
                } else {
                    proof {
                        let i = choose|i: int| 0 <= i < self.resolved@.len() && #[trigger] self.resolved@[i].0@ == id@;
                        crate::entries::lemma_entry_in_map(self.resolved@, i);
                    }
                }
            },
            Err(_) => {},
        }
    }

    fn remove_pending(&mut self, id: &str)
        requires
            old(self).wf(),
        ensures
            final(self).wf(),
            final(self).resolved@ == old(self).resolved@,
            final(self).pending_set() == old(self).pending_set().remove(id@),
            !final(self).pending_set().contains(id@),
    {
        let wanted = String::from_str(id);
        let mut kept: Vec<String> = Vec::new();
        let mut i: usize = 0;
        let ghost old_pending = self.pending@;
        while i < self.pending.len()
            invariant
                i <= self.pending@.len(),
                self.pending@ == old_pending,
                wanted@ == id@,
                forall|j: int| 0 <= j < kept@.len() ==> #[trigger] kept@[j]@ != id@,
                forall|j: int| 0 <= j < kept@.len() ==> contains_name(old_pending, #[trigger] kept@[j]@),
                forall|m: int| 0 <= m < i && (#[trigger] old_pending[m])@ != id@ ==> contains_name(kept@, old_pending[m]@),
            decreases self.pending@.len() - i,
        {
            if !(self.pending[i] == wanted) {
                let s = self.pending[i].clone();
                let ghost prev = kept@;
                kept.push(s);
                proof {
                    assert(kept@[kept@.len() - 1]@ == old_pending[i as int]@);
                    assert forall|m: int| 0 <= m <= i && (#[trigger] old_pending[m])@ != id@ implies contains_name(kept@, old_pending[m]@) by {
                        if m < i {
                            assert(contains_name(prev, old_pending[m]@));
                            let j = choose|j: int| 0 <= j < prev.len() && #[trigger] prev[j]@ == old_pending[m]@;
                            assert(kept@[j] == prev[j]);
                        } else {
                            assert(kept@[kept@.len() - 1]@ == old_pending[m]@);
                        }
                    }
                }
            }
            i = i + 1;
        }
        self.pending = kept;
        proof {
            assert forall|k: Seq<char>| #[trigger] self.pending_set().contains(k) <==> old(
                self,
            ).pending_set().remove(id@).contains(k) by {
                if self.pending_set().contains(k) {
                    let j = choose|j: int| 0 <= j < self.pending@.len() && #[trigger] self.pending@[j]@ == k;
                    assert(contains_name(old_pending, self.pending@[j]@));
                }
                if old(self).pending_set().remove(id@).contains(k) {
                    let m = choose|m: int| 0 <= m < old_pending.len() && #[trigger] old_pending[m]@ == k;
                    assert(old_pending[m]@ != id@);
                    assert(contains_name(self.pending@, old_pending[m]@));
                }
            }
            assert(self.pending_set() =~= old(self).pending_set().remove(id@));
            assert forall|j: int| 0 <= j < self.pending@.len() implies !has_key(self.resolved@, #[trigger] self.pending@[j]@) by {
                assert(contains_name(old_pending, self.pending@[j]@));
            }
        }
    }
}

} // verus!
