//! Code caches: bytes that an earlier compilation left for a later one.

use vstd::prelude::*;

verus! {

/// Who frees the bytes of a code cache.
#[derive(Clone, Copy, PartialEq, Eq, Structural, Debug)]
pub enum BufferPolicy {
    /// The bytes belong to the caller.
    NotOwned,
    /// The bytes are freed with the cache.
    Owned,
}

/// A code cache.
pub struct CachedData {
    /// The bytes; none where the embedder passed a null pointer.
    pub data: Option<Vec<u8>>,
    /// The number of bytes that the embedder is told.
    pub length: i32,
    /// Whether the engine refused the cache.
    pub rejected: bool,
    /// Who frees the bytes.
    pub buffer_policy: BufferPolicy,
}

/// A cache of bytes that stay the caller's.
pub fn cached_data_new(data: Option<Vec<u8>>, length: i32) -> (r: CachedData)
    ensures
        r.data == data,
        r.length == length,
        !r.rejected,
        r.buffer_policy == BufferPolicy::NotOwned,
{
    CachedData { data, length, rejected: false, buffer_policy: BufferPolicy::NotOwned }
}

/// A cache that owns `bytes`.
pub fn cached_data_from_bytes(bytes: Vec<u8>) -> (r: CachedData)
    ensures
        r.data == Some(bytes),
        r.length == bytes@.len() as i32,
        !r.rejected,
        r.buffer_policy == BufferPolicy::Owned,
{
    let length: i32 = bytes.len() as i32;
    CachedData { data: Some(bytes), length, rejected: false, buffer_policy: BufferPolicy::Owned }
}

/// The cache that stands in where none can be made: one zero byte, so that it is not empty.
pub fn make_placeholder_code_cache() -> (r: CachedData)
    ensures
        r.data matches Some(bytes) && bytes@ == seq![0u8],
        r.length == 1,
        !r.rejected,
        r.buffer_policy == BufferPolicy::Owned,
{
    let mut bytes: Vec<u8> = Vec::new();
    bytes.push(0);
    assert(bytes@ =~= seq![0u8]);
    let r = cached_data_from_bytes(bytes);
    r
}

impl CachedData {
    /// Freeing the cache frees its bytes: it owns them and has some.
    pub open spec fn owns_bytes(&self) -> bool {
        self.buffer_policy == BufferPolicy::Owned && self.data is Some && self.length > 0
    }

    /// Whether freeing the cache frees its bytes.
    pub fn frees_bytes(&self) -> (r: bool)
        ensures
            r == self.owns_bytes(),
    {
        self.buffer_policy == BufferPolicy::Owned && self.data.is_some() && self.length > 0
    }

    /// The cache has bytes to offer.
    pub open spec fn offers(&self) -> bool {
        self.data is Some && self.length > 0
    }

    /// Takes the cache up: it counts as accepted, and the result says whether it has bytes to use.
    pub fn accept(&mut self) -> (r: bool)
        ensures
            r == old(self).offers(),
            *final(self) == (CachedData { rejected: false, ..*old(self) }),
    {
        self.rejected = false;
        self.data.is_some() && self.length > 0
    }
}

/// An engine that scripts are compiled for.
#[derive(Clone, Copy, PartialEq, Eq, Structural, Debug)]
pub enum Engine {
    JavaScriptCore,
    QuickJs,
}

/// The bytes of `SJCV`, read as a little-endian number.
pub const JSC_VERSION_TAG: u32 = 0x5643_4a53;

/// The bytes of `SJEQ`, read as a little-endian number.
pub const QJS_VERSION_TAG: u32 = 0x5145_4a53;

/// The tag that the caches of an engine carry.
pub fn cached_data_version_tag(engine: Engine) -> (r: u32)
    ensures
        r == match engine {
            Engine::JavaScriptCore => JSC_VERSION_TAG,
            Engine::QuickJs => QJS_VERSION_TAG,
        },
{
    match engine {
        Engine::JavaScriptCore => JSC_VERSION_TAG,
        Engine::QuickJs => QJS_VERSION_TAG,
    }
}

/// A cache has bytes to offer where it has data of some length; freeing it frees them where it owns them.
pub proof fn law_accepted_cache(before: CachedData)
    ensures
        before.offers() == (before.data is Some && before.length > 0),
        before.owns_bytes() ==> before.offers(),
        before.buffer_policy == BufferPolicy::NotOwned ==> !before.owns_bytes(),
        before.buffer_policy == BufferPolicy::Owned ==> before.owns_bytes() == before.offers(),
{
}

/// A cache of the caller's bytes never frees them; one that took bytes over frees them.
pub proof fn law_caches_and_their_bytes(
    data: Option<Vec<u8>>,
    length: i32,
    lent: CachedData,
    bytes: Vec<u8>,
    taken: CachedData,
    placeholder: CachedData,
)
    requires
        call_ensures(cached_data_new, (data, length), lent),
        call_ensures(cached_data_from_bytes, (bytes,), taken),
        call_ensures(make_placeholder_code_cache, (), placeholder),
        0 < bytes@.len() <= i32::MAX,
    ensures
        !lent.owns_bytes(),
        lent.data == data && lent.length == length,
        taken.owns_bytes(),
        taken.data == Some(bytes) && taken.length == bytes@.len(),
        placeholder.owns_bytes() && placeholder.length == 1,
        placeholder.data->0@ == seq![0u8],
        !lent.rejected && !taken.rejected && !placeholder.rejected,
{
}

/// The tags of the engines differ: the bytes of one spell `SJCV`, those of the other `SJEQ`, from the lowest.
pub proof fn law_version_tags(jsc: u32, qjs: u32)
    requires
        call_ensures(cached_data_version_tag, (Engine::JavaScriptCore,), jsc),
        call_ensures(cached_data_version_tag, (Engine::QuickJs,), qjs),
    ensures
        jsc == 'S' as int + 256 * ('J' as int + 256 * ('C' as int + 256 * ('V' as int))),
        qjs == 'S' as int + 256 * ('J' as int + 256 * ('E' as int + 256 * ('Q' as int))),
        jsc != qjs,
{
}

} // verus!
