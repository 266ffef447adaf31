//! Backing stores: the bytes of array buffers, shared by reference counting.

use crate::handle_map::HandleMap;
use crate::qjs::isolate::NULL;
use vstd::prelude::*;

verus! {

/// The bytes of an array buffer.
#[derive(Clone, Copy, PartialEq, Eq, Structural, Debug)]
pub struct BackingStore {
    /// How many references there are.
    pub refcount: usize,
    /// The address of the bytes.
    pub data: usize,
    pub byte_length: usize,
    pub is_shared: bool,
    /// The function that releases bytes that were not allocated here, if there is one.
    pub deleter: Option<usize>,
    /// What the function is given.
    pub deleter_data: usize,
    /// The bytes were allocated here.
    pub owns_malloc: bool,
}

/// What becomes of the bytes of a store that is gone.
#[derive(Clone, Copy, PartialEq, Eq, Structural, Debug)]
pub enum Release {
    /// They stay.
    Nothing,
    /// They are freed.
    Free(usize),
    /// A function releases them.
    Call { deleter: usize, data: usize, byte_length: usize, deleter_data: usize },
}

impl BackingStore {
    /// What becomes of the bytes when the store is gone.
    pub open spec fn release(&self) -> Release {
        if self.data == NULL {
            Release::Nothing
        } else if self.owns_malloc {
            Release::Free(self.data)
        } else {
            match self.deleter {
                Some(deleter) => Release::Call {
                    deleter,
                    data: self.data,
                    byte_length: self.byte_length,
                    deleter_data: self.deleter_data,
                },
                None => Release::Nothing,
            }
        }
    }

    /// What becomes of the bytes when the store is gone.
    pub fn destroy(self) -> (r: Release)
        ensures
            r == self.release(),
    {
        if self.data == NULL {
            return Release::Nothing;
        }
        if self.owns_malloc {
            return Release::Free(self.data);
        }
        match self.deleter {
            Some(deleter) => Release::Call {
                deleter,
                data: self.data,
                byte_length: self.byte_length,
                deleter_data: self.deleter_data,
            },
            None => Release::Nothing,
        }
    }

    /// A store of `byte_length` bytes that were allocated at `data`. A store without bytes has none
    /// allocated.
    pub fn new_allocated(data: usize, byte_length: usize, is_shared: bool) -> (r: BackingStore)
        ensures
            r == (BackingStore {
                refcount: 1,
                data: if byte_length == 0 {
                    NULL
                } else {
                    data
                },
                byte_length,
                is_shared,
                deleter: None,
                deleter_data: NULL,
                owns_malloc: true,
            }),
    {
        BackingStore {
            refcount: 1,
            data: if byte_length == 0 {
                NULL
            } else {
                data
            },
            byte_length,
            is_shared,
            deleter: None,
            deleter_data: NULL,
            owns_malloc: true,
        }
    }

    /// A store of the embedder's bytes, which `deleter` releases.
    pub fn with_data(data: usize, byte_length: usize, deleter: usize, deleter_data: usize) -> (r:
        BackingStore)
        ensures
            r == (BackingStore {
                refcount: 1,
                data,
                byte_length,
                is_shared: false,
                deleter: Some(deleter),
                deleter_data,
                owns_malloc: false,
            }),
    {
        BackingStore {
            refcount: 1,
            data,
            byte_length,
            is_shared: false,
            deleter: Some(deleter),
            deleter_data,
            owns_malloc: false,
        }
    }

    /// A store over the bytes of an array buffer, which stay the buffer's.
    pub fn for_buffer(data: usize, byte_length: usize, is_shared: bool) -> (r: BackingStore)
        ensures
            r == (BackingStore {
                refcount: 1,
                data,
                byte_length,
                is_shared,
                deleter: None,
                deleter_data: NULL,
                owns_malloc: false,
            }),
            r.release() == Release::Nothing,
    {
        BackingStore {
            refcount: 1,
            data,
            byte_length,
            is_shared,
            deleter: None,
            deleter_data: NULL,
            owns_malloc: false,
        }
    }
}

/// All stores.
pub struct BackingStores {
    pub all: HandleMap<BackingStore>,
}

/// A store is known.
pub open spec fn known(all: Map<usize, BackingStore>, store: usize) -> bool {
    store != NULL && all.dom().contains(store)
}

/// The stores with one more reference to one of them.
pub open spec fn retained(all: Map<usize, BackingStore>, store: usize) -> Map<usize, BackingStore> {
    all.insert(
        store,
        BackingStore { refcount: (all[store].refcount + 1) as usize, ..all[store] },
    )
}

/// The stores with one reference less to one of them, which is gone with its last one; and what becomes
/// of its bytes.
pub open spec fn released(all: Map<usize, BackingStore>, store: usize) -> (
    Map<usize, BackingStore>,
    Release,
) {
    if all[store].refcount == 1 {
        (all.remove(store), all[store].release())
    } else {
        (
            all.insert(
                store,
                BackingStore { refcount: (all[store].refcount - 1) as usize, ..all[store] },
            ),
            Release::Nothing,
        )
    }
}

impl BackingStores {
    /// Every store that is there is referred to.
    pub open spec fn well_formed(&self) -> bool {
        forall|k: usize| #[trigger] self.all@.dom().contains(k) ==> self.all@[k].refcount >= 1
    }

    /// No store is known.
    pub fn new() -> (r: BackingStores)
        ensures
            r.well_formed(),
            r.all@ == Map::<usize, BackingStore>::empty(),
    {
        BackingStores { all: HandleMap::new() }
    }

    /// Takes up a store.
    pub fn insert(&mut self, store: usize, inner: BackingStore)
        requires
            old(self).well_formed(),
            inner.refcount >= 1,
        ensures
            final(self).well_formed(),
            final(self).all@ == old(self).all@.insert(store, inner),
    {
        self.all.insert(store, inner);
    }

    /// The address of the bytes of a store; none without a store.
    pub fn data(&self, store: usize) -> (r: usize)
        requires
            store == NULL || known(self.all@, store),
        ensures
            r == if store == NULL {
                NULL
            } else {
                self.all@[store].data
            },
    {
        if store == NULL {
            return NULL;
        }
        match self.all.get(store) {
            Some(s) => s.data,
            None => NULL,
        }
    }

    /// The number of bytes of a store; none without a store.
    pub fn byte_length(&self, store: usize) -> (r: usize)
        requires
            store == NULL || known(self.all@, store),
        ensures
            r == if store == NULL {
                0
            } else {
                self.all@[store].byte_length
            },
    {
        if store == NULL {
            return 0;
        }
        match self.all.get(store) {
            Some(s) => s.byte_length,
            None => 0,
        }
    }

    /// Whether a store is shared between threads.
    pub fn is_shared(&self, store: usize) -> (r: bool)
        requires
            store == NULL || known(self.all@, store),
        ensures
            r == (store != NULL && self.all@[store].is_shared),
    {
        if store == NULL {
            return false;
        }
        match self.all.get(store) {
            Some(s) => s.is_shared,
            None => false,
        }
    }

    /// Adds a reference. The result is the store, which a copy of a shared pointer holds.
    pub fn copy(&mut self, store: usize) -> (r: usize)
        requires
            old(self).well_formed(),
            store == NULL || (known(old(self).all@, store) && old(self).all@[store].refcount
                < usize::MAX),
        ensures
            final(self).well_formed(),
            r == store,
            final(self).all@ == if store == NULL {
                old(self).all@
            } else {
                retained(old(self).all@, store)
            },
    {
        if store != NULL {
            if let Some(s) = self.all.get_mut(store) {
                s.refcount = s.refcount + 1;
            }
        }
        store
    }

    /// Gives a reference up. The result says what becomes of the bytes.
    pub fn release(&mut self, store: usize) -> (r: Release)
        requires
            old(self).well_formed(),
            store == NULL || known(old(self).all@, store),
        ensures
            final(self).well_formed(),
            store == NULL ==> r == Release::Nothing && final(self).all@ == old(self).all@,
            store != NULL ==> (final(self).all@, r) == released(old(self).all@, store),
    {
        if store == NULL {
            return Release::Nothing;
        }
        let mut last = None;
        if let Some(s) = self.all.get_mut(store) {
            if s.refcount == 1 {
                last = Some(*s);
            } else {
                s.refcount = s.refcount - 1;
            }
        }
        match last {
            Some(s) => {
                self.all.remove(store);
                assert(self.all@ =~= old(self).all@.remove(store));
                s.destroy()
            },
            None => Release::Nothing,
        }
    }

    /// Empties a shared pointer. The result says what becomes of the bytes.
    pub fn reset(&mut self, pointer: &mut usize) -> (r: Release)
        requires
            old(self).well_formed(),
            *old(pointer) == NULL || known(old(self).all@, *old(pointer)),
        ensures
            final(self).well_formed(),
            *final(pointer) == NULL,
            *old(pointer) == NULL ==> r == Release::Nothing && final(self).all@ == old(self).all@,
            *old(pointer) != NULL ==> (final(self).all@, r) == released(
                old(self).all@,
                *old(pointer),
            ),
    {
        let r = self.release(*pointer);
        *pointer = NULL;
        r
    }

    /// Takes the reference that an array buffer over a store holds: where its bytes are and how many. None
    /// without a store. Where the buffer cannot be made, the reference is given up by `release`.
    pub fn lend(&mut self, store: usize) -> (r: Option<(usize, usize)>)
        requires
            old(self).well_formed(),
            store == NULL || (known(old(self).all@, store) && old(self).all@[store].refcount
                < usize::MAX),
        ensures
            final(self).well_formed(),
            r == if store == NULL {
                None
            } else {
                Some((old(self).all@[store].data, old(self).all@[store].byte_length))
            },
            final(self).all@ == if store == NULL {
                old(self).all@
            } else {
                retained(old(self).all@, store)
            },
    {
        if store == NULL {
            return None;
        }
        let span = (self.data(store), self.byte_length(store));
        let _ = self.copy(store);
        Some(span)
    }
}

/// Giving a reference up undoes adding it: the store and its bytes stay.
pub proof fn law_release_undoes_copy(all: Map<usize, BackingStore>, store: usize)
    requires
        known(all, store),
        1 <= all[store].refcount < usize::MAX,
    ensures
        released(retained(all, store), store) == (all, Release::Nothing),
{
    assert(retained(all, store).insert(store, all[store]) =~= all);
}

/// A store is gone if and only if its last reference is given up; its bytes are released then and never
/// before.
pub proof fn law_last_reference_destroys(all: Map<usize, BackingStore>, store: usize)
    requires
        known(all, store),
        all[store].refcount >= 1,
    ensures
        !released(all, store).0.dom().contains(store) <==> all[store].refcount == 1,
        released(all, store).1 != Release::Nothing ==> all[store].refcount == 1,
{
}

/// The contents of a view over an array buffer whose bytes begin at `base`: where they begin and how
/// many they are.
pub fn contents(base: usize, byte_offset: usize, byte_length: usize) -> (r: (usize, usize))
    requires
        base + byte_offset <= usize::MAX,
    ensures
        r == (if base == NULL {
            NULL
        } else {
            (base + byte_offset) as usize
        }, byte_length),
{
    if base == NULL {
        (NULL, byte_length)
    } else {
        (base + byte_offset, byte_length)
    }
}

/// The kinds of typed arrays.
#[derive(Clone, Copy, PartialEq, Eq, Structural, Debug)]
pub enum TypedArray {
    Uint8Clamped,
    Int8,
    Uint8,
    Int16,
    Uint16,
    Int32,
    Uint32,
    BigInt64,
    BigUint64,
    Float16,
    Float32,
    Float64,
}

/// The number that the engine gives a kind of typed arrays.
pub open spec fn kind_number(kind: TypedArray) -> i32 {
    match kind {
        TypedArray::Uint8Clamped => 0,
        TypedArray::Int8 => 1,
        TypedArray::Uint8 => 2,
        TypedArray::Int16 => 3,
        TypedArray::Uint16 => 4,
        TypedArray::Int32 => 5,
        TypedArray::Uint32 => 6,
        TypedArray::BigInt64 => 7,
        TypedArray::BigUint64 => 8,
        TypedArray::Float16 => 9,
        TypedArray::Float32 => 10,
        TypedArray::Float64 => 11,
    }
}

/// The number that the engine gives a kind of typed arrays.
pub fn typed_array_number(kind: TypedArray) -> (r: i32)
    ensures
        r == kind_number(kind),
{
    match kind {
        TypedArray::Uint8Clamped => 0,
        TypedArray::Int8 => 1,
        TypedArray::Uint8 => 2,
        TypedArray::Int16 => 3,
        TypedArray::Uint16 => 4,
        TypedArray::Int32 => 5,
        TypedArray::Uint32 => 6,
        TypedArray::BigInt64 => 7,
        TypedArray::BigUint64 => 8,
        TypedArray::Float16 => 9,
        TypedArray::Float32 => 10,
        TypedArray::Float64 => 11,
    }
}

/// The kind with this number.
pub fn typed_array_kind(number: i32) -> (r: Option<TypedArray>)
    ensures
        match r {
            Some(kind) => kind_number(kind) == number,
            None => number < 0 || number > 11,
        },
{
    match number {
        0 => Some(TypedArray::Uint8Clamped),
        1 => Some(TypedArray::Int8),
        2 => Some(TypedArray::Uint8),
        3 => Some(TypedArray::Int16),
        4 => Some(TypedArray::Uint16),
        5 => Some(TypedArray::Int32),
        6 => Some(TypedArray::Uint32),
        7 => Some(TypedArray::BigInt64),
        8 => Some(TypedArray::BigUint64),
        9 => Some(TypedArray::Float16),
        10 => Some(TypedArray::Float32),
        11 => Some(TypedArray::Float64),
        _ => None,
    }
}

/// A copy adds one reference, and giving one up takes one away; nothing else of any store changes.
pub proof fn law_references_are_counted(all: Map<usize, BackingStore>, store: usize, other: usize)
    requires
        known(all, store),
        all[store].refcount < usize::MAX,
    ensures
        retained(all, store)[store].refcount == all[store].refcount + 1,
        retained(all, store)[store].release() == all[store].release(),
        retained(all, store).dom() == all.dom(),
        other != store ==> retained(all, store)[other] == all[other],
        all[store].refcount > 1 ==> {
            let after = released(all, store);
            &&& after.0[store].refcount + 1 == all[store].refcount
            &&& after.0[store].release() == all[store].release()
            &&& after.0.dom() == all.dom()
            &&& after.1 == Release::Nothing
        },
        all[store].refcount == 1 ==> {
            let after = released(all, store);
            &&& after.0.dom() == all.dom().remove(store)
            &&& after.1 == all[store].release()
        },
        other != store ==> released(all, store).0[other] == all[other],
{
    assert(retained(all, store).dom() =~= all.dom());
    assert(all[store].refcount > 1 ==> released(all, store).0.dom() =~= all.dom());
    assert(all[store].refcount == 1 ==> released(all, store).0.dom() =~= all.dom().remove(store));
}

/// Bytes that the store allocated are freed; others are handed to their deleter, if there is one, with all
/// that it needs. Where there are no bytes, nothing happens.
pub proof fn law_release_of_bytes(s: BackingStore, deleter: usize)
    ensures
        s.data == 0 ==> s.release() == Release::Nothing,
        s.data != 0 && s.owns_malloc ==> s.release() == Release::Free(s.data),
        s.data != 0 && !s.owns_malloc && s.deleter is None ==> s.release() == Release::Nothing,
        s.data != 0 && !s.owns_malloc && s.deleter == Some(deleter) ==> s.release() == (Release::Call {
            deleter,
            data: s.data,
            byte_length: s.byte_length,
            deleter_data: s.deleter_data,
        }),
{
}

/// The numbers of the kinds of typed arrays.
pub proof fn law_numbers_of_typed_arrays(a: TypedArray, b: TypedArray)
    ensures
        kind_number(TypedArray::Uint8Clamped) == 0,
        kind_number(TypedArray::Int8) == 1,
        kind_number(TypedArray::Uint8) == 2,
        kind_number(TypedArray::Int16) == 3,
        kind_number(TypedArray::Uint16) == 4,
        kind_number(TypedArray::Int32) == 5,
        kind_number(TypedArray::Uint32) == 6,
        kind_number(TypedArray::BigInt64) == 7,
        kind_number(TypedArray::BigUint64) == 8,
        kind_number(TypedArray::Float16) == 9,
        kind_number(TypedArray::Float32) == 10,
        kind_number(TypedArray::Float64) == 11,
        kind_number(a) == kind_number(b) ==> a == b,
{
}

/// Each kind is found by its number.
pub proof fn law_kind_by_number(kind: TypedArray, number: i32, found: Option<TypedArray>)
    requires
        call_ensures(typed_array_number, (kind,), number),
        call_ensures(typed_array_kind, (number,), found),
    ensures
        found == Some(kind),
{
    law_numbers_of_typed_arrays(kind, found->0);
}

/// The contents of a view begin so many bytes behind those of its buffer; without a buffer nowhere.
pub proof fn law_contents_of_a_view(base: usize, offset: usize, length: usize, r: (usize, usize))
    requires
        base + offset <= usize::MAX,
        call_ensures(contents, (base, offset, length), r),
    ensures
        r.1 == length,
        base == 0 ==> r.0 == 0,
        base != 0 ==> r.0 - base == offset,
{
}

/// A store that was allocated frees its bytes, one over the embedder's bytes hands them to their deleter, and
/// one over a buffer leaves them alone.
pub proof fn law_new_stores(
    data: usize,
    length: usize,
    shared: bool,
    deleter: usize,
    deleter_data: usize,
    made: BackingStore,
    lent: BackingStore,
    view: BackingStore,
)
    requires
        data != 0,
        length > 0,
        call_ensures(BackingStore::new_allocated, (data, length, shared), made),
        call_ensures(BackingStore::with_data, (data, length, deleter, deleter_data), lent),
        call_ensures(BackingStore::for_buffer, (data, length, shared), view),
    ensures
        made.release() == Release::Free(data),
        lent.release() == (Release::Call { deleter, data, byte_length: length, deleter_data }),
        view.release() == Release::Nothing,
        made.refcount == 1 && lent.refcount == 1 && view.refcount == 1,
        made.is_shared == shared && !lent.is_shared && view.is_shared == shared,
        made.byte_length == length && lent.byte_length == length && view.byte_length == length,
{
}

/// A store without bytes has no address.
pub proof fn law_stores_without_bytes(data: usize, shared: bool, made: BackingStore)
    requires
        call_ensures(BackingStore::new_allocated, (data, 0usize, shared), made),
    ensures
        made.data == 0,
        made.release() == Release::Nothing,
{
}

/// A store with two references keeps its bytes when one is given up, and loses them with the other.
pub proof fn law_two_references(
    a: BackingStores,
    b: BackingStores,
    c: BackingStores,
    d: BackingStores,
    store: usize,
    copied: usize,
    first: Release,
    second: Release,
)
    requires
        a.well_formed(),
        known(a.all@, store),
        a.all@[store].refcount == 1,
        exists|m: &mut BackingStores|
            *m == a && *final(m) == b && #[trigger] call_ensures(BackingStores::copy, (m, store), copied),
        exists|m: &mut BackingStores|
            *m == b && *final(m) == c && #[trigger] call_ensures(BackingStores::release, (m, store), first),
        exists|m: &mut BackingStores|
            *m == c && *final(m) == d && #[trigger] call_ensures(BackingStores::release, (m, copied), second),
    ensures
        copied == store,
        first == Release::Nothing,
        c.all@ == a.all@,
        second == a.all@[store].release(),
        !d.all@.dom().contains(store),
{
    law_release_undoes_copy(a.all@, store);
}

/// A store that is taken up is found with its bytes.
pub proof fn law_store_is_found(a: BackingStores, b: BackingStores, store: usize, inner: BackingStore, data: usize, length: usize, shared: bool)
    requires
        a.well_formed(),
        store != 0,
        inner.refcount >= 1,
        exists|m: &mut BackingStores|
            *m == a && *final(m) == b && #[trigger] call_ensures(BackingStores::insert, (m, store, inner), ()),
        call_ensures(BackingStores::data, (&b, store), data),
        call_ensures(BackingStores::byte_length, (&b, store), length),
        call_ensures(BackingStores::is_shared, (&b, store), shared),
    ensures
        data == inner.data && length == inner.byte_length && shared == inner.is_shared,
{
}

} // verus!
