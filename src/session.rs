//! Sessions: per-request key/value data that a session filter loads from a
//! store before the request runs and saves back when the request changed it.
use crate::string_map::{pairs_map, pairs_view, StringMap};
use vstd::prelude::*;

verus! {

/// The `(name, value)` pairs that `serde_urlencoded` reads from a form
/// encoded string, or nothing when the string cannot be read.
pub uninterp spec fn form_decoded(s: Seq<char>) -> Option<Seq<(Seq<char>, Seq<char>)>>;

/// The form encoded string that `serde_urlencoded` writes for a list of
/// `(name, value)` pairs, or nothing when it reports an error.
pub uninterp spec fn form_encoded(pairs: Seq<(Seq<char>, Seq<char>)>) -> Option<Seq<char>>;

/// Relies on `serde_urlencoded::from_str` into a list of string pairs.
#[verifier::external_body]
fn decode_form(s: &str) -> (r: Option<Vec<(String, String)>>)
    ensures
        match r {
            Some(pairs) => form_decoded(s@) == Some(pairs_view(pairs@)),
            None => form_decoded(s@) is None,
        },
{
    serde_urlencoded::from_str::<Vec<(String, String)>>(s).ok()
}

/// Relies on `serde_urlencoded::to_string` of a list of string pairs.
#[verifier::external_body]
fn encode_form(pairs: &Vec<(String, String)>) -> (r: Option<String>)
    ensures
        match r {
            Some(s) => form_encoded(pairs_view(pairs@)) == Some(s@),
            None => form_encoded(pairs_view(pairs@)) is None,
        },
{
    serde_urlencoded::to_string(pairs).ok()
}

/// Session storage in memory, for demonstrations and tests; a real server
/// keeps sessions outside the process.
pub struct MemorySessionStore {
    data: StringMap,
}

impl MemorySessionStore {
    pub closed spec fn wf(&self) -> bool {
        self.data.wf()
    }

    /// The data stored for each session id.
    pub closed spec fn sessions(&self) -> Map<Seq<char>, Seq<char>> {
        self.data@
    }

    /// An empty store.
    pub fn new() -> (r: MemorySessionStore)
        ensures
            r.wf(),
            r.sessions() == Map::<Seq<char>, Seq<char>>::empty(),
    {
        MemorySessionStore { data: StringMap::new() }
    }

    /// The data stored for session `id`.
    pub fn get(&self, id: &str) -> (r: Option<String>)
        requires
            self.wf(),
        ensures
            match r {
                Some(v) => self.sessions().contains_key(id@) && self.sessions()[id@] == v@,
                None => !self.sessions().contains_key(id@),
            },
    {
        self.data.get(id)
    }

    /// Stores the data of session `id`.
    pub fn set(&mut self, id: String, value: String)
        requires
            old(self).wf(),
        ensures
            final(self).wf(),
            final(self).sessions() == old(self).sessions().insert(id@, value@),
    {
        self.data.insert(id, value);
    }

    /// Forgets session `id`.
    pub fn clear(&mut self, id: &str)
        requires
            old(self).wf(),
        ensures
            final(self).wf(),
            final(self).sessions() == old(self).sessions().remove(id@),
    {
        self.data.remove(id);
    }
}

/// The data of one session, and whether it changed since it was loaded.
pub struct Session {
    data: StringMap,
    modified: bool,
}

impl Session {
    pub closed spec fn wf(&self) -> bool {
        self.data.wf()
    }

    /// The session's data.
    pub closed spec fn data(&self) -> Map<Seq<char>, Seq<char>> {
        self.data@
    }

    /// Whether the data changed since it was loaded.
    pub closed spec fn modified(&self) -> bool {
        self.modified
    }

    /// An empty, unmodified session.
    pub fn new() -> (r: Session)
        ensures
            r.wf(),
            r.data() == Map::<Seq<char>, Seq<char>>::empty(),
            !r.modified(),
    {
        Session { data: StringMap::new(), modified: false }
    }

    /// A value from the session.
    pub fn get(&self, key: &str) -> (r: Option<String>)
        requires
            self.wf(),
        ensures
            match r {
                Some(v) => self.data().contains_key(key@) && self.data()[key@] == v@,
                None => !self.data().contains_key(key@),
            },
    {
        self.data.get(key)
    }

    /// Stores a value into the session, which is then modified.
    pub fn set(&mut self, key: String, value: String)
        requires
            old(self).wf(),
        ensures
            final(self).wf(),
            final(self).data() == old(self).data().insert(key@, value@),
            final(self).modified(),
    {
        self.data.insert(key, value);
        self.modified = true;
    }

    /// Whether the session changed since it was loaded.
    pub fn is_modified(&self) -> (r: bool)
        ensures
            r == self.modified(),
    {
        self.modified
    }

    /// Replaces the data with freshly loaded data; the session is then
    /// unmodified.
    pub fn load(&mut self, data: StringMap)
        requires
            data.wf(),
        ensures
            final(self).wf(),
            final(self).data() == data@,
            !final(self).modified(),
    {
        self.data = data;
        self.modified = false;
    }

    /// Loads the data from its form encoded text, as a store keeps it. Text
    /// that cannot be read leaves the session as it was and gives `false`.
    pub fn load_encoded(&mut self, raw: &str) -> (r: bool)
        requires
            old(self).wf(),
        ensures
            final(self).wf(),
            match form_decoded(raw@) {
                Some(pairs) => r && final(self).data() == pairs_map(pairs) && !final(self).modified(),
                None => !r && final(self).data() == old(self).data() && final(self).modified()
                    == old(self).modified(),
            },
    {
        match decode_form(raw) {
            Some(pairs) => {
                self.load(StringMap::from_pairs(pairs));
                true
            },
            None => false,
        }
    }

    /// The data in form encoded text, as a store keeps it.
    pub fn encoded(&self) -> (r: Option<String>)
        requires
            self.wf(),
        ensures
            exists|pairs: Seq<(Seq<char>, Seq<char>)>|
                pairs_map(pairs) == self.data() && pairs.len() == self.data().len() && match r {
                    Some(s) => form_encoded(pairs) == Some(s@),
                    None => form_encoded(pairs) is None,
                },
    {
        let pairs = self.data.to_pairs();
        let r = encode_form(&pairs);
        assert(pairs_view(pairs@).len() == pairs@.len());
        r
    }
}

} // verus!
