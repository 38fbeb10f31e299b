//! What a schema provides: the detached and the pooled form of its records,
//! and the access to each attachment type.

use crate::component_storage::ComponentsStorage;
use crate::pool::Pool;
use std::any::TypeId;
use vstd::prelude::*;

verus! {

/// An attachment type of the detached record `E`.
pub trait Component<E>: 'static + Clone + Sized {
    /// The payload of this type that `entity` carries, if any.
    spec fn payload(entity: &E) -> Option<Self>;

    /// `entity` without its payload of this type: its properties and its
    /// other attachments.
    spec fn rest(entity: &E) -> E;

    /// What is left without the payload carries none, and is itself where
    /// there was none to begin with.
    proof fn lemma_rest(entity: &E)
        ensures
            Self::payload(&Self::rest(entity)) is None,
            Self::rest(&Self::rest(entity)) == Self::rest(entity),
            Self::payload(entity) is None ==> Self::rest(entity) == *entity,
    ;

    /// Attaches `self` in place of the payload of this type, if any.
    fn set(self, entity: &mut E)
        ensures
            Self::payload(final(entity)) == Some(self),
            Self::rest(final(entity)) == Self::rest(old(entity)),
    ;

    /// The payload of this type that `entity` carries.
    fn get(entity: &E) -> (r: Option<&Self>)
        ensures
            r == (match Self::payload(entity) {
                Some(c) => Some(&c),
                None => None,
            }),
    ;

    /// The payload of this type that `entity` carries, for writing.
    fn get_mut(entity: &mut E) -> (r: Option<&mut Self>)
        ensures
            Self::rest(final(entity)) == Self::rest(old(entity)),
            match r {
                Some(c) => Self::payload(old(entity)) == Some(*c) && Self::payload(final(entity)) == Some(
                    *final(c),
                ),
                None => Self::payload(old(entity)) is None && *final(entity) == *old(entity),
            },
    ;

    /// Detaches the payload of this type and returns it.
    fn remove(entity: &mut E) -> (r: Option<Box<Self>>)
        ensures
            *final(entity) == Self::rest(old(entity)),
            r == (match Self::payload(old(entity)) {
                Some(c) => Some(Box::new(c)),
                None => None,
            }),
    ;

    /// Reads the payload through `f`.
    fn peek<O, F: FnOnce(&Self) -> O>(entity: &E, f: F) -> (r: Option<O>)
        requires
            Self::payload(entity) matches Some(c) ==> call_requires(f, (&c,)),
        ensures
            match Self::payload(entity) {
                Some(c) => r matches Some(o) && call_ensures(f, (&c,), o),
                None => r is None,
            },
    ;

    /// Writes to the payload through `f`.
    fn update<O, F: FnOnce(&mut Self) -> O>(entity: &mut E, f: F) -> (r: Option<O>)
        requires
            forall|c: &mut Self| Self::payload(old(entity)) == Some(*c) ==> call_requires(f, (c,)),
        ensures
            Self::rest(final(entity)) == Self::rest(old(entity)),
            match Self::payload(old(entity)) {
                Some(before) => exists|c: &mut Self, o: O|
                    r == Some(o) && *c == before && #[trigger] call_ensures(f, (c,), o) && Self::payload(
                        final(entity),
                    ) == Some(*final(c)),
                None => r is None && *final(entity) == *old(entity),
            },
    ;
}

/// What `with_component_change` is told to do with an attachment.
pub enum ChangeComponent<C, F = fn(&mut C)> {
    /// Leave the attachment as it is.
    NoChange,
    /// Attach this payload, in place of the present one if there is one.
    Replace(C),
    /// Write to the present payload, if there is one.
    Mutate(F),
    /// Detach the payload.
    Remove,
}

/// A record: its attachment types, and the operations that every attachment
/// type of a detached record shares.
pub trait EntityBase: Sized {
    /// The record carries an attachment of the type `id`.
    spec fn carries(&self, id: TypeId) -> bool;

    /// The number of attachment types in the schema.
    spec fn schema_len() -> usize;

    /// The attachment types of the schema, in the order of their declaration.
    spec fn schema_id(k: usize) -> TypeId;

    /// A record carries attachments of its schema's types only.
    proof fn lemma_carries_in_schema(&self, id: TypeId)
        requires
            self.carries(id),
        ensures
            exists|k: usize| k < Self::schema_len() && #[trigger] Self::schema_id(k) == id,
    ;

    /// The attachment types that this record carries, in schema order.
    fn for_each_active_component(&self) -> (ids: Vec<TypeId>)
        ensures
            ids@ == Seq::new(Self::schema_len() as nat, |k: int| Self::schema_id(k as usize)).filter(
                |id: TypeId| self.carries(id),
            ),
    ;

    /// The attachment types of the schema, in order, each with whether this
    /// record carries it.
    fn for_each_component(&self) -> (flags: Vec<(TypeId, bool)>)
        ensures
            flags@.len() == Self::schema_len(),
            forall|k: int|
                0 <= k < flags@.len() ==> #[trigger] flags@[k] == (
                    Self::schema_id(k as usize),
                    self.carries(Self::schema_id(k as usize)),
                ),
    ;

    /// The attachment types of the schema, in order.
    fn for_all_components() -> (ids: Vec<TypeId>)
        ensures
            ids@.len() == Self::schema_len(),
            forall|k: int| 0 <= k < ids@.len() ==> #[trigger] ids@[k] == Self::schema_id(k as usize),
    ;

    /// The record with `component` attached, in place of the payload of its
    /// type if there was one.
    fn with<C: Component<Self>>(self, component: C) -> (r: Self)
        ensures
            C::payload(&r) == Some(component),
            C::rest(&r) == C::rest(&self),
    {
        let mut entity = self;
        component.set(&mut entity);
        entity
    }

    /// The record after `f` has written to its payload of type `C`; the
    /// record itself where it carries none.
    fn with_mutation<C: Component<Self>, F: FnOnce(&mut C)>(self, f: F) -> (r: Self)
        requires
            forall|c: &mut C| C::payload(&self) == Some(*c) ==> call_requires(f, (c,)),
        ensures
            C::rest(&r) == C::rest(&self),
            match C::payload(&self) {
                Some(before) => exists|c: &mut C|
                    *c == before && #[trigger] call_ensures(f, (c,), ()) && C::payload(&r) == Some(*final(c)),
                None => r == self,
            },
    {
        let mut entity = self;
        entity.mutate::<C, (), F>(f);
        entity
    }

    /// The payload of type `C` for writing, after attaching the default
    /// payload where the record carried none.
    fn get_mut_or_default<C: Component<Self> + Default>(&mut self) -> (r: &mut C)
        ensures
            C::rest(final(self)) == C::rest(old(self)),
            C::payload(final(self)) == Some(*final(r)),
            match C::payload(old(self)) {
                Some(before) => *r == before,
                None => call_ensures(C::default, (), *r),
            },
    {
        if C::get(self).is_none() {
            C::default().set(self);
        }
        match C::get_mut(self) {
            Some(c) => c,
            None => vstd::pervasive::unreached(),
        }
    }

    /// Writes through `f` to the payload of type `C`, after attaching the
    /// default payload where the record carried none.
    fn mutate_or_default<C: Component<Self> + Default, O, F: FnOnce(&mut C) -> O>(&mut self, f: F) -> (r: O)
        requires
            forall|c: &mut C| call_requires(f, (c,)),
        ensures
            C::rest(final(self)) == C::rest(old(self)),
            exists|c: &mut C|
                {
                    &&& #[trigger] call_ensures(f, (c,), r)
                    &&& C::payload(final(self)) == Some(*final(c))
                    &&& match C::payload(old(self)) {
                        Some(before) => *c == before,
                        None => call_ensures(C::default, (), *c),
                    }
                },
    {
        let c = self.get_mut_or_default::<C>();
        f(c)
    }

    /// The record after `f` has written to its payload of type `C`, the
    /// default payload where it carried none.
    fn with_mutation_or_default<C: Component<Self> + Default, F: FnOnce(&mut C)>(self, f: F) -> (r: Self)
        requires
            forall|c: &mut C| call_requires(f, (c,)),
        ensures
            C::rest(&r) == C::rest(&self),
            exists|c: &mut C|
                {
                    &&& #[trigger] call_ensures(f, (c,), ())
                    &&& C::payload(&r) == Some(*final(c))
                    &&& match C::payload(&self) {
                        Some(before) => *c == before,
                        None => call_ensures(C::default, (), *c),
                    }
                },
    {
        let mut entity = self;
        entity.mutate_or_default::<C, (), F>(f);
        entity
    }

    /// The record without its attachment of type `C`.
    fn with_removed<C: Component<Self>>(self) -> (r: Self)
        ensures
            r == C::rest(&self),
    {
        let mut entity = self;
        let _ = C::remove(&mut entity);
        entity
    }

    /// Lets `f` look at the record and say what to do with its attachment of
    /// type `C`, and does it: nothing, attach a payload, write to the present
    /// payload, or detach it.
    fn with_component_change<C: Component<Self>, G: FnOnce(&mut C), F: FnOnce(&mut Self) -> ChangeComponent<C, G>>(
        self,
        f: F,
    ) -> (r: Self)
        requires
            forall|e: &mut Self| *e == self ==> call_requires(f, (e,)),
            forall|e: &mut Self, g: G, c: &mut C|
                *e == self && call_ensures(f, (e,), ChangeComponent::<C, G>::Mutate(g)) ==> call_requires(
                    g,
                    (c,),
                ),
        ensures
            exists|e: &mut Self, change: ChangeComponent<C, G>|
                {
                    &&& *e == self
                    &&& #[trigger] call_ensures(f, (e,), change)
                    &&& change is NoChange ==> r == *final(e)
                    &&& change is Remove ==> r == C::rest(final(e))
                    &&& change is Replace ==> C::payload(&r) == Some(change->Replace_0) && C::rest(&r) == C::rest(
                        final(e),
                    )
                    &&& change is Mutate ==> C::rest(&r) == C::rest(final(e)) && (C::payload(final(e)) is None ==> r
                        == *final(e)) && (C::payload(final(e)) is Some ==> exists|c: &mut C|
                        *c == C::payload(final(e))->0 && #[trigger] call_ensures(change->Mutate_0, (c,), ())
                            && C::payload(&r) == Some(*final(c)))
                },
    {
        let mut entity = self;
        match f(&mut entity) {
            ChangeComponent::NoChange => entity,
            ChangeComponent::Remove => entity.with_removed::<C>(),
            ChangeComponent::Replace(c) => entity.with(c),
            ChangeComponent::Mutate(g) => {
                match C::get_mut(&mut entity) {
                    Some(c) => {
                        g(c);
                    },
                    None => {},
                }
                entity
            },
        }
    }

    /// Reads the payload of type `C` through `f`.
    fn peek<C: Component<Self>, O, F: FnOnce(&C) -> O>(&self, f: F) -> (r: Option<O>)
        requires
            C::payload(self) matches Some(c) ==> call_requires(f, (&c,)),
        ensures
            match C::payload(self) {
                Some(c) => r matches Some(o) && call_ensures(f, (&c,), o),
                None => r is None,
            },
    {
        match C::get(self) {
            Some(c) => Some(f(c)),
            None => None,
        }
    }

    /// Writes to the payload of type `C` through `f`.
    fn mutate<C: Component<Self>, O, F: FnOnce(&mut C) -> O>(&mut self, f: F) -> (r: Option<O>)
        requires
            forall|c: &mut C| C::payload(old(self)) == Some(*c) ==> call_requires(f, (c,)),
        ensures
            C::rest(final(self)) == C::rest(old(self)),
            match C::payload(old(self)) {
                Some(before) => exists|c: &mut C, o: O|
                    r == Some(o) && *c == before && #[trigger] call_ensures(f, (c,), o) && C::payload(
                        final(self),
                    ) == Some(*final(c)),
                None => r is None && *final(self) == *old(self),
            },
    {
        match C::get_mut(self) {
            Some(c) => Some(f(c)),
            None => None,
        }
    }

    /// The record carries an attachment of type `C`.
    fn has<C: Component<Self>>(&self) -> (r: bool)
        ensures
            r == C::payload(self).is_some(),
    {
        C::get(self).is_some()
    }

    /// The payload of type `C`.
    fn get<C: Component<Self>>(&self) -> (r: Option<&C>)
        ensures
            r == (match C::payload(self) {
                Some(c) => Some(&c),
                None => None,
            }),
    {
        C::get(self)
    }

    /// The payload of type `C`, for writing.
    fn get_mut<C: Component<Self>>(&mut self) -> (r: Option<&mut C>)
        ensures
            C::rest(final(self)) == C::rest(old(self)),
            match r {
                Some(c) => C::payload(old(self)) == Some(*c) && C::payload(final(self)) == Some(*final(c)),
                None => C::payload(old(self)) is None && *final(self) == *old(self),
            },
    {
        C::get_mut(self)
    }

    /// Detaches the payload of type `C` and returns it.
    fn remove<C: Component<Self>>(&mut self) -> (r: Option<Box<C>>)
        ensures
            *final(self) == C::rest(old(self)),
            r == (match C::payload(old(self)) {
                Some(c) => Some(Box::new(c)),
                None => None,
            }),
    {
        C::remove(self)
    }

    /// Attaches `c`, in place of the payload of its type if there is one.
    fn add<C: Component<Self>>(&mut self, c: C)
        ensures
            C::payload(final(self)) == Some(c),
            C::rest(final(self)) == C::rest(old(self)),
    {
        c.set(self);
    }
}


/// The detached form of a record: its properties and, for each attachment
/// type, the payload itself or nothing.
pub trait EntityOwnedBase: EntityBase {
    /// The properties, as a tuple in the order of their declaration.
    type CreationParams;

    /// The properties of the record.
    spec fn props(&self) -> Self::CreationParams;

    /// A record with the given properties and no attachment.
    fn new(params: Self::CreationParams) -> (entity: Self)
        ensures
            entity.props() == params,
            forall|id: TypeId| !entity.carries(id),
    ;
}

/// The pooled form of a record: its properties and, for each attachment
/// type, the handle of the payload in that type's pool or nothing.
///
/// A pooled record holds no reference to the pools. Whoever reads or writes
/// its payloads passes the pools along with the record.
pub trait EntityRefBase: EntityBase + Clone {
    /// The pools that the payloads of the records stand in.
    type CS: ComponentsStorage;

    /// The record as it is written out, for a collection that is stored.
    type Naked: Clone;

    /// The detached form of the record.
    type Owned: EntityOwnedBase;

    /// The handle of the record's payload of the attachment type `id`.
    spec fn handle(&self, id: TypeId) -> Option<usize>;

    /// The properties of the record.
    spec fn props(&self) -> <Self::Owned as EntityOwnedBase>::CreationParams;

    /// A pooled record carries the attachment types that it has a handle for.
    proof fn lemma_handle(&self, id: TypeId)
        ensures
            self.carries(id) == self.handle(id).is_some(),
    ;

    /// A clone has the same handles.
    proof fn lemma_clone_handle(&self, other: &Self, id: TypeId)
        requires
            cloned::<Self>(*self, *other),
        ensures
            self.handle(id) == other.handle(id),
    ;

    /// `pooled` and `after` are what `from_owned` makes of `owned` and the
    /// pools `before`.
    spec fn pooling(owned: &Self::Owned, before: &Self::CS, pooled: &Self, after: &Self::CS) -> bool;

    /// `owned` and `after` are what `to_owned` makes of `pooled` and the
    /// pools `before`.
    spec fn detaching(pooled: &Self, before: &Self::CS, owned: &Self::Owned, after: &Self::CS) -> bool;

    /// Moves the payloads of a detached record into the pools. The pooled
    /// record has the same properties and carries the same attachment types,
    /// each behind a handle that its pool did not hold; the pools hold what
    /// they held and these.
    fn from_owned(owned: Self::Owned, cs: &mut Self::CS) -> (r: Self)
        ensures
            Self::pooling(&owned, old(cs), &r, final(cs)),
            r.props() == owned.props(),
            forall|id: TypeId| #[trigger] r.carries(id) == owned.carries(id),
            forall|id: TypeId, key: usize|
                #[trigger] final(cs).holds(id, key) == (old(cs).holds(id, key) || r.handle(id) == Some(key)),
            forall|id: TypeId, key: usize| r.handle(id) == Some(key) ==> !#[trigger] old(cs).holds(id, key),
    ;

    /// Moves the payloads of a pooled record out of the pools. The detached
    /// record has the same properties and carries the same attachment types;
    /// the pools hold what they held but for the record's payloads.
    fn to_owned(self, cs: &mut Self::CS) -> (owned: Self::Owned)
        requires
            forall|id: TypeId, key: usize| self.handle(id) == Some(key) ==> #[trigger] old(cs).holds(id, key),
        ensures
            Self::detaching(&self, old(cs), &owned, final(cs)),
            owned.props() == self.props(),
            forall|id: TypeId| #[trigger] owned.carries(id) == self.carries(id),
            forall|id: TypeId, key: usize|
                #[trigger] final(cs).holds(id, key) == (old(cs).holds(id, key) && self.handle(id) != Some(key)),
    ;

    /// The record as it is written out.
    spec fn naked(&self) -> Self::Naked;

    /// The record that was written out as `naked`.
    fn from_naked(naked: Self::Naked) -> (r: Self)
        ensures
            r.naked() == naked,
    ;

    /// The record as it is written out.
    fn as_naked(&self) -> (naked: Self::Naked)
        ensures
            naked == self.naked(),
    ;
}

/// An attachment type of the pooled record `E`, and of its detached form.
///
/// A schema says where the type's pool stands among the pools and where the
/// record keeps the handle. The access to the payload of a pooled record is
/// the same for every attachment type and is given here; it takes the pools
/// along with the record.
pub trait RefComponent<E: EntityRefBase>: Component<E::Owned> {
    /// The identifier of this attachment type.
    spec fn id() -> TypeId;

    /// The pool of this attachment type among the pools.
    spec fn pool(cs: &E::CS) -> Pool<Self>;

    /// `entity` without its handle of this type: its properties and its
    /// other handles.
    spec fn rest_pooled(entity: &E) -> E;

    /// `cs` without the pool of this type: the other pools.
    spec fn rest_cs(cs: &E::CS) -> E::CS;

    /// A detached record carries this attachment type where it carries a
    /// payload of it.
    proof fn lemma_carries(owned: &E::Owned)
        ensures
            owned.carries(Self::id()) == <Self as Component<E::Owned>>::payload(owned).is_some(),
    ;

    /// The pool holds a payload behind the handles that the pools hold for
    /// this type.
    proof fn lemma_pool_holds(cs: &E::CS, key: usize)
        ensures
            cs.holds(Self::id(), key) == Self::pool(cs)@.contains_key(key),
    ;

    /// What `from_owned` does to this type: the pooled record's handle is
    /// behind the payload that the detached record carried, and the payloads
    /// that the pool held are as they were.
    proof fn lemma_pooling(owned: &E::Owned, before: &E::CS, pooled: &E, after: &E::CS)
        requires
            E::pooling(owned, before, pooled, after),
        ensures
            match pooled.handle(Self::id()) {
                Some(key) => Self::pool(after)@.contains_key(key) && <Self as Component<E::Owned>>::payload(owned) == Some(
                    Self::pool(after)@[key],
                ),
                None => <Self as Component<E::Owned>>::payload(owned) is None,
            },
            forall|key: usize|
                Self::pool(before)@.contains_key(key) ==> Self::pool(after)@.contains_key(key)
                    && #[trigger] Self::pool(after)@[key] == Self::pool(before)@[key],
    ;

    /// What `to_owned` does to this type: the detached record carries the
    /// payload that was behind the pooled record's handle, and the other
    /// payloads of the pool are as they were.
    proof fn lemma_detaching(pooled: &E, before: &E::CS, owned: &E::Owned, after: &E::CS)
        requires
            E::detaching(pooled, before, owned, after),
            pooled.handle(Self::id()) matches Some(key) ==> Self::pool(before)@.contains_key(key),
        ensures
            <Self as Component<E::Owned>>::payload(owned) == (match pooled.handle(Self::id()) {
                Some(key) => Some(Self::pool(before)@[key]),
                None => None,
            }),
            forall|key: usize|
                Self::pool(before)@.contains_key(key) && pooled.handle(Self::id()) != Some(key)
                    ==> Self::pool(after)@.contains_key(key) && #[trigger] Self::pool(after)@[key]
                    == Self::pool(before)@[key],
    ;

    /// The identifier of this attachment type.
    fn type_id() -> (id: TypeId)
        ensures
            id == Self::id(),
    ;

    /// The pool of this type.
    fn get_single_cs(cs: &E::CS) -> (pool: &Pool<Self>)
        ensures
            *pool == Self::pool(cs),
    ;

    /// The pool of this type, for writing. The other pools stay as they are.
    fn get_single_cs_mut(cs: &mut E::CS) -> (pool: &mut Pool<Self>)
        ensures
            *pool == Self::pool(old(cs)),
            Self::pool(final(cs)) == *final(pool),
            Self::rest_cs(final(cs)) == Self::rest_cs(old(cs)),
            forall|id: TypeId, key: usize|
                id != Self::id() ==> #[trigger] final(cs).holds(id, key) == old(cs).holds(id, key),
    ;

    /// The record's handle of this type.
    fn get_cs_id(entity: &E) -> (key: Option<usize>)
        ensures
            key == entity.handle(Self::id()),
    ;

    /// Writes the record's handle of this type. The rest of the record stays
    /// as it is.
    fn set_cs_id(entity: &mut E, key: Option<usize>)
        ensures
            final(entity).handle(Self::id()) == key,
            Self::rest_pooled(final(entity)) == Self::rest_pooled(old(entity)),
            forall|id: TypeId| id != Self::id() ==> #[trigger] final(entity).handle(id) == old(entity).handle(id),
    ;

    /// Attaches `self`. Where the record's handle is behind a payload in the
    /// pool, the payload is overwritten and the handle kept; else the pool
    /// takes `self` in and the record gets the new handle.
    fn set_in(self, entity: &mut E, cs: &mut E::CS)
        ensures
            Self::rest_pooled(final(entity)) == Self::rest_pooled(old(entity)),
            Self::rest_cs(final(cs)) == Self::rest_cs(old(cs)),
            forall|id: TypeId| id != Self::id() ==> #[trigger] final(entity).handle(id) == old(entity).handle(id),
            forall|id: TypeId, key: usize|
                id != Self::id() ==> #[trigger] final(cs).holds(id, key) == old(cs).holds(id, key),
            final(entity).handle(Self::id()) is Some,
            Self::pool(final(cs))@ == Self::pool(old(cs))@.insert(final(entity).handle(Self::id())->0, self),
            match old(entity).handle(Self::id()) {
                Some(key) => Self::pool(old(cs))@.contains_key(key) ==> final(entity).handle(Self::id()) == Some(
                    key,
                ),
                None => true,
            },
            final(entity).handle(Self::id()) != old(entity).handle(Self::id()) ==> !Self::pool(
                old(cs),
            )@.contains_key(final(entity).handle(Self::id())->0),
    {
        match Self::get_cs_id(entity) {
            Some(key) => {
                match Self::get_single_cs_mut(cs).get_mut(key) {
                    Some(payload) => {
                        *payload = self;
                        proof {
                            assert(Self::pool(cs)@ =~= Self::pool(old(cs))@.insert(key, self));
                        }
                        return ;
                    },
                    None => {},
                }
            },
            None => {},
        }
        let key = Self::get_single_cs_mut(cs).insert(self);
        Self::set_cs_id(entity, Some(key));
    }

    /// The record's payload of this type.
    fn get_in<'a>(entity: &E, cs: &'a E::CS) -> (r: Option<&'a Self>)
        ensures
            r == (match entity.handle(Self::id()) {
                Some(key) => if Self::pool(cs)@.contains_key(key) {
                    Some(&Self::pool(cs)@[key])
                } else {
                    None
                },
                None => None,
            }),
    {
        match Self::get_cs_id(entity) {
            Some(key) => Self::get_single_cs(cs).get(key),
            None => None,
        }
    }

    /// The record's payload of this type, for writing. What is written is
    /// what the pool holds behind the record's handle afterwards.
    fn get_mut_in<'a>(entity: &E, cs: &'a mut E::CS) -> (r: Option<&'a mut Self>)
        ensures
            Self::rest_cs(final(cs)) == Self::rest_cs(old(cs)),
            forall|id: TypeId, key: usize|
                id != Self::id() ==> #[trigger] final(cs).holds(id, key) == old(cs).holds(id, key),
            match r {
                Some(payload) => {
                    &&& entity.handle(Self::id()) matches Some(key)
                    &&& Self::pool(old(cs))@.contains_key(key)
                    &&& *payload == Self::pool(old(cs))@[key]
                    &&& Self::pool(final(cs))@ == Self::pool(old(cs))@.insert(key, *final(payload))
                },
                None => {
                    &&& entity.handle(Self::id()) matches Some(key) ==> !Self::pool(old(cs))@.contains_key(key)
                    &&& Self::pool(final(cs))@ == Self::pool(old(cs))@
                },
            },
    {
        let found = match Self::get_in(entity, cs) {
            Some(_) => true,
            None => false,
        };
        if !found {
            return None;
        }
        match Self::get_cs_id(entity) {
            Some(key) => Self::get_single_cs_mut(cs).get_mut(key),
            None => None,
        }
    }

    /// Detaches the record's payload of this type and returns it. The pool
    /// must hold a payload behind the record's handle.
    fn remove_in(entity: &mut E, cs: &mut E::CS) -> (r: Option<Box<Self>>)
        requires
            old(entity).handle(Self::id()) matches Some(key) ==> Self::pool(old(cs))@.contains_key(key),
        ensures
            Self::rest_pooled(final(entity)) == Self::rest_pooled(old(entity)),
            Self::rest_cs(final(cs)) == Self::rest_cs(old(cs)),
            final(entity).handle(Self::id()) is None,
            forall|id: TypeId| id != Self::id() ==> #[trigger] final(entity).handle(id) == old(entity).handle(id),
            forall|id: TypeId, key: usize|
                id != Self::id() ==> #[trigger] final(cs).holds(id, key) == old(cs).holds(id, key),
            match old(entity).handle(Self::id()) {
                Some(key) => r == Some(Box::new(Self::pool(old(cs))@[key])) && Self::pool(final(cs))@
                    == Self::pool(old(cs))@.remove(key),
                None => r is None && Self::pool(final(cs))@ == Self::pool(old(cs))@,
            },
    {
        match Self::get_cs_id(entity) {
            Some(key) => {
                Self::set_cs_id(entity, None);
                let payload = Self::get_single_cs_mut(cs).remove(key);
                Some(Box::new(payload))
            },
            None => None,
        }
    }

    /// Reads the record's payload of this type through `f`.
    fn peek_in<O, F: FnOnce(&Self) -> O>(entity: &E, cs: &E::CS, f: F) -> (r: Option<O>)
        requires
            entity.handle(Self::id()) matches Some(key) ==> Self::pool(cs)@.contains_key(key) ==> call_requires(
                f,
                (&Self::pool(cs)@[key],),
            ),
        ensures
            match entity.handle(Self::id()) {
                Some(key) => if Self::pool(cs)@.contains_key(key) {
                    exists|o: O| r == Some(o) && #[trigger] call_ensures(f, (&Self::pool(cs)@[key],), o)
                } else {
                    r is None
                },
                None => r is None,
            },
    {
        match Self::get_in(entity, cs) {
            Some(payload) => Some(f(payload)),
            None => None,
        }
    }

    /// Writes to the record's payload of this type through `f`.
    fn update_in<O, F: FnOnce(&mut Self) -> O>(entity: &E, cs: &mut E::CS, f: F) -> (r: Option<O>)
        requires
            forall|payload: &mut Self| call_requires(f, (payload,)),
        ensures
            Self::rest_cs(final(cs)) == Self::rest_cs(old(cs)),
            forall|id: TypeId, key: usize|
                id != Self::id() ==> #[trigger] final(cs).holds(id, key) == old(cs).holds(id, key),
            match entity.handle(Self::id()) {
                Some(key) => if Self::pool(old(cs))@.contains_key(key) {
                    exists|payload: &mut Self, o: O|
                        {
                            &&& r == Some(o)
                            &&& *payload == Self::pool(old(cs))@[key]
                            &&& #[trigger] call_ensures(f, (payload,), o)
                            &&& Self::pool(final(cs))@ == Self::pool(old(cs))@.insert(key, *final(payload))
                        }
                } else {
                    r is None && Self::pool(final(cs))@ == Self::pool(old(cs))@
                },
                None => r is None && Self::pool(final(cs))@ == Self::pool(old(cs))@,
            },
    {
        match Self::get_mut_in(entity, cs) {
            Some(payload) => Some(f(payload)),
            None => None,
        }
    }
}

} // verus!
