use smec::pool::Pool;
use smec::{
    ChangeComponent, Component, ComponentsStorage, EntityBase, EntityId, EntityList, EntityOwnedBase, EntityRefBase,
    MultiComponentIter, MultiComponentIterMut, RefComponent,
};
use std::any::TypeId;

#[derive(Debug, PartialEq, Clone, Copy)]
pub struct ComponentA {
    alpha: f32,
}

#[derive(Debug, PartialEq, Clone, Copy)]
pub struct ComponentB {
    beta: i32,
}

#[derive(Debug, PartialEq, Clone, Copy)]
pub struct ComponentC {
    ceta: u32,
}

#[derive(Debug, PartialEq, Clone, Copy)]
pub struct CommonProp;

#[derive(Debug, PartialEq, Clone, Copy)]
pub struct AgeProp {
    age: u32,
}

#[derive(Clone)]
pub struct Entity {
    pub common: CommonProp,
    pub age: AgeProp,
    pub a: Option<Box<ComponentA>>,
    pub b: Option<Box<ComponentB>>,
    pub c: Option<Box<ComponentC>>,
}

#[derive(Clone)]
pub struct EntityRef {
    pub common: CommonProp,
    pub age: AgeProp,
    pub a: Option<usize>,
    pub b: Option<usize>,
    pub c: Option<usize>,
}

#[derive(Clone)]
pub struct EntityRefNaked {
    pub common: CommonProp,
    pub age: AgeProp,
    pub a: Option<usize>,
    pub b: Option<usize>,
    pub c: Option<usize>,
}

#[derive(Clone)]
pub struct EntityComponentsStorage {
    a: Pool<ComponentA>,
    b: Pool<ComponentB>,
    c: Pool<ComponentC>,
}

// The items of the traits that only contracts speak of are never called.

impl ComponentsStorage for EntityComponentsStorage {
    fn holds(&self, _: TypeId, _: usize) -> bool {
        unreachable!()
    }

    fn lemma_clone_holds(&self, _: &Self, _: TypeId, _: usize) {}

    fn new() -> Self {
        Self { a: Pool::new(), b: Pool::new(), c: Pool::new() }
    }
}

impl Component<Entity> for ComponentA {
    fn payload(_: &Entity) -> Option<Self> {
        unreachable!()
    }

    fn rest(_: &Entity) -> Entity {
        unreachable!()
    }

    fn lemma_rest(_: &Entity) {}

    fn set(self, entity: &mut Entity) {
        entity.a = Some(Box::new(self))
    }

    fn get(entity: &Entity) -> Option<&ComponentA> {
        entity.a.as_ref().map(|s| &**s)
    }

    fn get_mut(entity: &mut Entity) -> Option<&mut ComponentA> {
        entity.a.as_mut().map(|s| &mut **s)
    }

    fn remove(entity: &mut Entity) -> Option<Box<ComponentA>> {
        entity.a.take()
    }

    fn peek<O, F: FnOnce(&Self) -> O>(entity: &Entity, f: F) -> Option<O> {
        entity.a.as_ref().map(|c| &**c).map(f)
    }

    fn update<O, F: FnOnce(&mut Self) -> O>(entity: &mut Entity, f: F) -> Option<O> {
        entity.a.as_mut().map(|c| &mut **c).map(f)
    }
}

impl RefComponent<EntityRef> for ComponentA {
    fn id() -> TypeId {
        unreachable!()
    }

    fn pool(_: &EntityComponentsStorage) -> Pool<Self> {
        unreachable!()
    }

    fn rest_pooled(_: &EntityRef) -> EntityRef {
        unreachable!()
    }

    fn rest_cs(_: &EntityComponentsStorage) -> EntityComponentsStorage {
        unreachable!()
    }

    fn lemma_carries(_: &Entity) {}

    fn lemma_pool_holds(_: &EntityComponentsStorage, _: usize) {}

    fn lemma_pooling(_: &Entity, _: &EntityComponentsStorage, _: &EntityRef, _: &EntityComponentsStorage) {}

    fn lemma_detaching(_: &EntityRef, _: &EntityComponentsStorage, _: &Entity, _: &EntityComponentsStorage) {}

    fn type_id() -> TypeId {
        TypeId::of::<ComponentA>()
    }

    fn get_single_cs(cs: &EntityComponentsStorage) -> &Pool<Self> {
        &cs.a
    }

    fn get_single_cs_mut(cs: &mut EntityComponentsStorage) -> &mut Pool<Self> {
        &mut cs.a
    }

    fn get_cs_id(entity: &EntityRef) -> Option<usize> {
        entity.a
    }

    fn set_cs_id(entity: &mut EntityRef, key: Option<usize>) {
        entity.a = key
    }
}

impl Component<Entity> for ComponentB {
    fn payload(_: &Entity) -> Option<Self> {
        unreachable!()
    }

    fn rest(_: &Entity) -> Entity {
        unreachable!()
    }

    fn lemma_rest(_: &Entity) {}

    fn set(self, entity: &mut Entity) {
        entity.b = Some(Box::new(self))
    }

    fn get(entity: &Entity) -> Option<&ComponentB> {
        entity.b.as_ref().map(|s| &**s)
    }

    fn get_mut(entity: &mut Entity) -> Option<&mut ComponentB> {
        entity.b.as_mut().map(|s| &mut **s)
    }

    fn remove(entity: &mut Entity) -> Option<Box<ComponentB>> {
        entity.b.take()
    }

    fn peek<O, F: FnOnce(&Self) -> O>(entity: &Entity, f: F) -> Option<O> {
        entity.b.as_ref().map(|c| &**c).map(f)
    }

    fn update<O, F: FnOnce(&mut Self) -> O>(entity: &mut Entity, f: F) -> Option<O> {
        entity.b.as_mut().map(|c| &mut **c).map(f)
    }
}

impl RefComponent<EntityRef> for ComponentB {
    fn id() -> TypeId {
        unreachable!()
    }

    fn pool(_: &EntityComponentsStorage) -> Pool<Self> {
        unreachable!()
    }

    fn rest_pooled(_: &EntityRef) -> EntityRef {
        unreachable!()
    }

    fn rest_cs(_: &EntityComponentsStorage) -> EntityComponentsStorage {
        unreachable!()
    }

    fn lemma_carries(_: &Entity) {}

    fn lemma_pool_holds(_: &EntityComponentsStorage, _: usize) {}

    fn lemma_pooling(_: &Entity, _: &EntityComponentsStorage, _: &EntityRef, _: &EntityComponentsStorage) {}

    fn lemma_detaching(_: &EntityRef, _: &EntityComponentsStorage, _: &Entity, _: &EntityComponentsStorage) {}

    fn type_id() -> TypeId {
        TypeId::of::<ComponentB>()
    }

    fn get_single_cs(cs: &EntityComponentsStorage) -> &Pool<Self> {
        &cs.b
    }

    fn get_single_cs_mut(cs: &mut EntityComponentsStorage) -> &mut Pool<Self> {
        &mut cs.b
    }

    fn get_cs_id(entity: &EntityRef) -> Option<usize> {
        entity.b
    }

    fn set_cs_id(entity: &mut EntityRef, key: Option<usize>) {
        entity.b = key
    }
}

impl Component<Entity> for ComponentC {
    fn payload(_: &Entity) -> Option<Self> {
        unreachable!()
    }

    fn rest(_: &Entity) -> Entity {
        unreachable!()
    }

    fn lemma_rest(_: &Entity) {}

    fn set(self, entity: &mut Entity) {
        entity.c = Some(Box::new(self))
    }

    fn get(entity: &Entity) -> Option<&ComponentC> {
        entity.c.as_ref().map(|s| &**s)
    }

    fn get_mut(entity: &mut Entity) -> Option<&mut ComponentC> {
        entity.c.as_mut().map(|s| &mut **s)
    }

    fn remove(entity: &mut Entity) -> Option<Box<ComponentC>> {
        entity.c.take()
    }

    fn peek<O, F: FnOnce(&Self) -> O>(entity: &Entity, f: F) -> Option<O> {
        entity.c.as_ref().map(|c| &**c).map(f)
    }

    fn update<O, F: FnOnce(&mut Self) -> O>(entity: &mut Entity, f: F) -> Option<O> {
        entity.c.as_mut().map(|c| &mut **c).map(f)
    }
}

impl RefComponent<EntityRef> for ComponentC {
    fn id() -> TypeId {
        unreachable!()
    }

    fn pool(_: &EntityComponentsStorage) -> Pool<Self> {
        unreachable!()
    }

    fn rest_pooled(_: &EntityRef) -> EntityRef {
        unreachable!()
    }

    fn rest_cs(_: &EntityComponentsStorage) -> EntityComponentsStorage {
        unreachable!()
    }

    fn lemma_carries(_: &Entity) {}

    fn lemma_pool_holds(_: &EntityComponentsStorage, _: usize) {}

    fn lemma_pooling(_: &Entity, _: &EntityComponentsStorage, _: &EntityRef, _: &EntityComponentsStorage) {}

    fn lemma_detaching(_: &EntityRef, _: &EntityComponentsStorage, _: &Entity, _: &EntityComponentsStorage) {}

    fn type_id() -> TypeId {
        TypeId::of::<ComponentC>()
    }

    fn get_single_cs(cs: &EntityComponentsStorage) -> &Pool<Self> {
        &cs.c
    }

    fn get_single_cs_mut(cs: &mut EntityComponentsStorage) -> &mut Pool<Self> {
        &mut cs.c
    }

    fn get_cs_id(entity: &EntityRef) -> Option<usize> {
        entity.c
    }

    fn set_cs_id(entity: &mut EntityRef, key: Option<usize>) {
        entity.c = key
    }
}

impl EntityBase for Entity {
    fn carries(&self, _: TypeId) -> bool {
        unreachable!()
    }

    fn schema_len() -> usize {
        unreachable!()
    }

    fn schema_id(_: usize) -> TypeId {
        unreachable!()
    }

    fn lemma_carries_in_schema(&self, _: TypeId) {}

    fn for_each_active_component(&self) -> Vec<TypeId> {
        let mut ids = Vec::new();
        if self.a.is_some() {
            ids.push(TypeId::of::<ComponentA>());
        }
        if self.b.is_some() {
            ids.push(TypeId::of::<ComponentB>());
        }
        if self.c.is_some() {
            ids.push(TypeId::of::<ComponentC>());
        }
        ids
    }

    fn for_each_component(&self) -> Vec<(TypeId, bool)> {
        vec![
            (TypeId::of::<ComponentA>(), self.a.is_some()),
            (TypeId::of::<ComponentB>(), self.b.is_some()),
            (TypeId::of::<ComponentC>(), self.c.is_some()),
        ]
    }

    fn for_all_components() -> Vec<TypeId> {
        vec![TypeId::of::<ComponentA>(), TypeId::of::<ComponentB>(), TypeId::of::<ComponentC>()]
    }
}

impl EntityBase for EntityRef {
    fn carries(&self, _: TypeId) -> bool {
        unreachable!()
    }

    fn schema_len() -> usize {
        unreachable!()
    }

    fn schema_id(_: usize) -> TypeId {
        unreachable!()
    }

    fn lemma_carries_in_schema(&self, _: TypeId) {}

    fn for_each_active_component(&self) -> Vec<TypeId> {
        let mut ids = Vec::new();
        if self.a.is_some() {
            ids.push(TypeId::of::<ComponentA>());
        }
        if self.b.is_some() {
            ids.push(TypeId::of::<ComponentB>());
        }
        if self.c.is_some() {
            ids.push(TypeId::of::<ComponentC>());
        }
        ids
    }

    fn for_each_component(&self) -> Vec<(TypeId, bool)> {
        vec![
            (TypeId::of::<ComponentA>(), self.a.is_some()),
            (TypeId::of::<ComponentB>(), self.b.is_some()),
            (TypeId::of::<ComponentC>(), self.c.is_some()),
        ]
    }

    fn for_all_components() -> Vec<TypeId> {
        vec![TypeId::of::<ComponentA>(), TypeId::of::<ComponentB>(), TypeId::of::<ComponentC>()]
    }
}

impl EntityOwnedBase for Entity {
    type CreationParams = (CommonProp, AgeProp);

    fn props(&self) -> (CommonProp, AgeProp) {
        unreachable!()
    }

    fn new((common, age): (CommonProp, AgeProp)) -> Self {
        Entity { common, age, a: None, b: None, c: None }
    }
}


impl EntityRefBase for EntityRef {
    type CS = EntityComponentsStorage;
    type Naked = EntityRefNaked;
    type Owned = Entity;

    fn handle(&self, _: TypeId) -> Option<usize> {
        unreachable!()
    }

    fn props(&self) -> (CommonProp, AgeProp) {
        unreachable!()
    }

    fn lemma_handle(&self, _: TypeId) {}

    fn lemma_clone_handle(&self, _: &Self, _: TypeId) {}

    fn pooling(_: &Entity, _: &EntityComponentsStorage, _: &Self, _: &EntityComponentsStorage) -> bool {
        unreachable!()
    }

    fn detaching(_: &Self, _: &EntityComponentsStorage, _: &Entity, _: &EntityComponentsStorage) -> bool {
        unreachable!()
    }

    fn from_owned(mut owned: Entity, cs: &mut EntityComponentsStorage) -> Self {
        let mut r = EntityRef { common: owned.common, age: owned.age, a: None, b: None, c: None };
        if let Some(payload) = owned.a.take() {
            payload.set_in(&mut r, cs);
        }
        if let Some(payload) = owned.b.take() {
            payload.set_in(&mut r, cs);
        }
        if let Some(payload) = owned.c.take() {
            payload.set_in(&mut r, cs);
        }
        r
    }

    fn to_owned(self, cs: &mut EntityComponentsStorage) -> Entity {
        let mut pooled = self;
        Entity {
            common: pooled.common,
            age: pooled.age,
            a: ComponentA::remove_in(&mut pooled, cs),
            b: ComponentB::remove_in(&mut pooled, cs),
            c: ComponentC::remove_in(&mut pooled, cs),
        }
    }

    fn naked(&self) -> EntityRefNaked {
        unreachable!()
    }

    fn from_naked(naked: EntityRefNaked) -> Self {
        EntityRef { common: naked.common, age: naked.age, a: naked.a, b: naked.b, c: naked.c }
    }

    fn as_naked(&self) -> EntityRefNaked {
        EntityRefNaked { common: self.common, age: self.age, a: self.a, b: self.b, c: self.c }
    }
}

fn handles(mut it: MultiComponentIter<'_, EntityRef>) -> Vec<EntityId> {
    let mut ids = Vec::new();
    while let Some((id, _)) = it.next() {
        ids.push(id);
    }
    ids
}

fn handles_mut(mut it: MultiComponentIterMut<'_, EntityRef>) -> Vec<EntityId> {
    let mut ids = Vec::new();
    while let Some((id, _)) = it.next() {
        ids.push(id);
    }
    ids
}

fn all_handles(list: &EntityList<EntityRef>) -> Vec<EntityId> {
    let mut ids = Vec::new();
    let mut it = list.iter_all();
    while let Some((id, _)) = it.next() {
        ids.push(id);
    }
    ids
}

fn all_handles_mut(list: &mut EntityList<EntityRef>) -> Vec<EntityId> {
    let mut ids = Vec::new();
    let mut it = list.iter_all_mut();
    while let Some((id, _)) = it.next() {
        ids.push(id);
    }
    ids
}

#[test]
fn entity_ops() {
    let mut entity_list: EntityList<EntityRef> = EntityList::new();

    let id_1 = entity_list.insert(Entity::new((CommonProp, AgeProp { age: 5 })).with(ComponentA { alpha: 5.0 }));
    let id_2 = entity_list.insert(Entity::new((CommonProp, AgeProp { age: 6 })).with(ComponentB { beta: 5 }));
    let e1 = entity_list.get(id_1).unwrap();
    let x = e1.get::<ComponentA>().unwrap();
    assert_eq!(x.alpha, 5.0);
    assert_eq!(e1.get::<ComponentB>(), None);

    let mut e2 = entity_list.get_mut(id_2).unwrap();
    let x = e2.get_mut::<ComponentB>().unwrap();
    x.beta += 1;

    assert!(e2.has::<ComponentB>());
    assert!(!e2.has::<ComponentA>());
    e2.mutate(|c: &mut ComponentB| c.beta += 1);

    let v = e2.peek(|c: &ComponentB| c.beta);
    assert_eq!(v, Some(7));

    e2.remove::<ComponentB>();
    e2.add(ComponentC { ceta: 7 });

    assert_eq!(e2.get::<ComponentB>(), None);
    assert!(e2.get::<ComponentC>().is_some());
}

#[test]
fn entity_with_ops() {
    let e = Entity::new((CommonProp, AgeProp { age: 5 })).with(ComponentA { alpha: 5.0 });
    let e = e.with_removed::<ComponentA>();
    assert_eq!(e.get::<ComponentA>(), None);

    let e = e.with(ComponentB { beta: 5 });
    assert_eq!(e.get::<ComponentB>().clone(), Some(&ComponentB { beta: 5 }));

    let e = e.with_mutation(|c: &mut ComponentB| {
        c.beta += 1;
    });

    assert_eq!(e.get::<ComponentB>().clone(), Some(&ComponentB { beta: 6 }));
}

#[test]
fn entity_with_component_change() {
    let e = Entity::new((CommonProp, AgeProp { age: 5 }))
        .with(ComponentA { alpha: 5.0 })
        .with(ComponentB { beta: 5 });
    let e = e.with_component_change(|e: &mut Entity| -> ChangeComponent<ComponentA> {
        if let Some(_) = e.get::<ComponentB>() {
            ChangeComponent::Remove
        } else {
            ChangeComponent::NoChange
        }
    });

    assert_eq!(e.get::<ComponentA>(), None);

    let e = e.with_component_change(|e: &mut Entity| -> ChangeComponent<ComponentA> {
        if let Some(ComponentB { beta }) = e.get::<ComponentB>() {
            ChangeComponent::Replace(ComponentA { alpha: 5.0 + (*beta as f32) })
        } else {
            ChangeComponent::NoChange
        }
    });

    assert_eq!(e.get::<ComponentA>(), Some(&ComponentA { alpha: 10.0 }));

    let e = e.with_component_change(|e: &mut Entity| -> ChangeComponent<ComponentA, _> {
        if let Some(ComponentB { beta }) = e.get::<ComponentB>() {
            let beta = *beta;
            ChangeComponent::Mutate(Box::new(move |a: &mut ComponentA| {
                a.alpha += beta as f32;
            }))
        } else {
            ChangeComponent::NoChange
        }
    });

    assert_eq!(e.get::<ComponentA>(), Some(&ComponentA { alpha: 15.0 }));

    let e = e.with_component_change(|_: &mut Entity| -> ChangeComponent<ComponentA> {
        ChangeComponent::NoChange
    });

    assert_eq!(e.get::<ComponentA>(), Some(&ComponentA { alpha: 15.0 }));
}

/// Tests that properties are available
#[test]
fn entity_prop_ops() {
    let e = Entity::new((CommonProp, AgeProp { age: 5 })).with(ComponentA { alpha: 5.0 });
    assert_eq!(e.common, CommonProp);
    assert_eq!(e.age, AgeProp { age: 5 });
}

/// Tests immutable iteration, also where only a part of the records is
/// covered.
#[test]
fn basic_iter() {
    let mut entity_list: EntityList<EntityRef> = EntityList::new();

    let id_1 = entity_list.insert(Entity::new((CommonProp, AgeProp { age: 5 })).with(ComponentA { alpha: 5.0 }));
    let id_2 = entity_list.insert(Entity::new((CommonProp, AgeProp { age: 1 })).with(ComponentB { beta: 5 }));
    let id_3 = entity_list.insert(
        Entity::new((CommonProp, AgeProp { age: 6 })).with(ComponentB { beta: 6 }).with(ComponentA { alpha: 6.0 }),
    );
    let id_4 = entity_list.insert(Entity::new((CommonProp, AgeProp { age: 6 })).with(ComponentC { ceta: 6 }));
    let id_5 = entity_list.insert(
        Entity::new((CommonProp, AgeProp { age: 6 }))
            .with(ComponentA { alpha: 6.0 })
            .with(ComponentB { beta: 6 })
            .with(ComponentC { ceta: 6 }),
    );
    let id_6 = entity_list.insert(
        Entity::new((CommonProp, AgeProp { age: 6 })).with(ComponentB { beta: 6 }).with(ComponentC { ceta: 6 }),
    );
    let id_7 = entity_list.insert(
        Entity::new((CommonProp, AgeProp { age: 6 })).with(ComponentA { alpha: 6.0 }).with(ComponentB { beta: 6 }),
    );
    let id_8 = entity_list.insert(
        Entity::new((CommonProp, AgeProp { age: 6 }))
            .with(ComponentA { alpha: 6.0 })
            .with(ComponentB { beta: 6 })
            .with(ComponentC { ceta: 6 }),
    );

    entity_list.remove(id_5);
    entity_list.remove(id_7);

    let all_entities = all_handles(&entity_list);
    let only_comp_a = handles(entity_list.iter::<(ComponentA,)>());
    let only_comp_b = handles(entity_list.iter::<(ComponentB,)>());
    let only_comp_c = handles(entity_list.iter::<(ComponentC,)>());
    let comp_a_and_b = handles(entity_list.iter::<(ComponentA, ComponentB)>());
    let comp_a_and_c = handles(entity_list.iter::<(ComponentA, ComponentC)>());
    let comp_b_and_c = handles(entity_list.iter::<(ComponentB, ComponentC)>());
    let comp_all = handles(entity_list.iter::<(ComponentB, ComponentC, ComponentA)>());

    assert_eq!(all_entities, &[id_1, id_2, id_3, id_4, id_6, id_8]);

    assert_eq!(only_comp_a, &[id_1, id_3, id_8]);
    assert_eq!(only_comp_b, &[id_2, id_3, id_6, id_8]);
    assert_eq!(only_comp_c, &[id_4, id_6, id_8]);

    assert_eq!(comp_a_and_b, &[id_3, id_8]);
    assert_eq!(comp_a_and_c, &[id_8]);
    assert_eq!(comp_b_and_c, &[id_6, id_8]);

    assert_eq!(comp_all, &[id_8]);
}

fn six_entities(entity_list: &mut EntityList<EntityRef>) -> [EntityId; 6] {
    let id_1 = entity_list.insert(Entity::new((CommonProp, AgeProp { age: 5 })).with(ComponentA { alpha: 5.0 }));
    let id_2 = entity_list.insert(Entity::new((CommonProp, AgeProp { age: 1 })).with(ComponentB { beta: 5 }));
    let id_3 = entity_list.insert(
        Entity::new((CommonProp, AgeProp { age: 6 })).with(ComponentB { beta: 6 }).with(ComponentA { alpha: 6.0 }),
    );
    let id_4 = entity_list.insert(Entity::new((CommonProp, AgeProp { age: 6 })).with(ComponentC { ceta: 6 }));
    let id_5 = entity_list.insert(
        Entity::new((CommonProp, AgeProp { age: 6 })).with(ComponentB { beta: 6 }).with(ComponentC { ceta: 6 }),
    );
    let id_6 = entity_list.insert(
        Entity::new((CommonProp, AgeProp { age: 6 }))
            .with(ComponentA { alpha: 6.0 })
            .with(ComponentB { beta: 6 })
            .with(ComponentC { ceta: 6 }),
    );
    [id_1, id_2, id_3, id_4, id_5, id_6]
}

/// Tests mutable iteration.
#[test]
fn iter_mut() {
    let mut entity_list: EntityList<EntityRef> = EntityList::new();
    let [id_1, id_2, id_3, id_4, id_5, id_6] = six_entities(&mut entity_list);

    let all_entities = all_handles_mut(&mut entity_list);
    let only_comp_a = handles_mut(entity_list.iter_mut::<(ComponentA,)>());
    let only_comp_b = handles_mut(entity_list.iter_mut::<(ComponentB,)>());
    let only_comp_c = handles_mut(entity_list.iter_mut::<(ComponentC,)>());
    let comp_a_and_b = handles_mut(entity_list.iter_mut::<(ComponentA, ComponentB)>());
    let comp_a_and_c = handles_mut(entity_list.iter_mut::<(ComponentA, ComponentC)>());
    let comp_b_and_c = handles_mut(entity_list.iter_mut::<(ComponentB, ComponentC)>());
    let comp_all = handles_mut(entity_list.iter_mut::<(ComponentB, ComponentC, ComponentA)>());

    assert_eq!(all_entities, &[id_1, id_2, id_3, id_4, id_5, id_6]);

    assert_eq!(only_comp_a, &[id_1, id_3, id_6]);
    assert_eq!(only_comp_b, &[id_2, id_3, id_5, id_6]);
    assert_eq!(only_comp_c, &[id_4, id_5, id_6]);

    assert_eq!(comp_a_and_b, &[id_3, id_6]);
    assert_eq!(comp_a_and_c, &[id_6]);
    assert_eq!(comp_b_and_c, &[id_5, id_6]);

    assert_eq!(comp_all, &[id_6]);

    // Each record is lent until the next step: what is written to it stays.
    let mut it = entity_list.iter_mut::<(ComponentA,)>();
    while let Some((_i, mut e)) = it.next() {
        e.mutate(|a: &mut ComponentA| a.alpha += 1.0);
    }
    assert_eq!(entity_list.get(id_1).unwrap().get::<ComponentA>(), Some(&ComponentA { alpha: 6.0 }));
    assert_eq!(entity_list.get(id_3).unwrap().get::<ComponentA>(), Some(&ComponentA { alpha: 7.0 }));
    assert_eq!(entity_list.get(id_6).unwrap().get::<ComponentA>(), Some(&ComponentA { alpha: 7.0 }));
}

/// Tests that a refresh brings the presence index up to date with what was
/// written to a record directly.
#[test]
fn iter_refresh() {
    let mut entity_list: EntityList<EntityRef> = EntityList::new();
    let [id_1, id_2, id_3, id_4, id_5, id_6] = six_entities(&mut entity_list);

    if let Some(mut e) = entity_list.get_mut(id_6) {
        e.remove::<ComponentB>();
    }
    entity_list.refresh(id_6);
    if let Some(mut e) = entity_list.get_mut(id_2) {
        e.add::<ComponentA>(ComponentA { alpha: 4.0 });
    }
    entity_list.refresh(id_2);

    let all_entities = all_handles_mut(&mut entity_list);
    let only_comp_a = handles_mut(entity_list.iter_mut::<(ComponentA,)>());
    let only_comp_b = handles_mut(entity_list.iter_mut::<(ComponentB,)>());
    let only_comp_c = handles_mut(entity_list.iter_mut::<(ComponentC,)>());

    assert_eq!(all_entities, &[id_1, id_2, id_3, id_4, id_5, id_6]);

    assert_eq!(only_comp_a, &[id_1, id_2, id_3, id_6]);
    assert_eq!(only_comp_b, &[id_2, id_3, id_5]);
    assert_eq!(only_comp_c, &[id_4, id_5, id_6]);
}

impl Default for ComponentA {
    fn default() -> Self {
        ComponentA { alpha: 0.5 }
    }
}

impl Default for ComponentB {
    fn default() -> Self {
        ComponentB { beta: 40 }
    }
}

fn single_handles<C: RefComponent<EntityRef>>(list: &EntityList<EntityRef>) -> Vec<EntityId> {
    let mut ids = Vec::new();
    let mut it = list.iter_single::<C>();
    while let Some((id, _, _)) = it.next() {
        ids.push(id);
    }
    ids
}

fn payloads_of(entity: &Entity) -> (Option<ComponentA>, Option<ComponentB>, Option<ComponentC>) {
    (entity.get::<ComponentA>().copied(), entity.get::<ComponentB>().copied(), entity.get::<ComponentC>().copied())
}

#[test]
fn a_record_comes_back_as_it_went_in() {
    let records = [
        Entity::new((CommonProp, AgeProp { age: 1 })),
        Entity::new((CommonProp, AgeProp { age: 2 })).with(ComponentA { alpha: 1.5 }),
        Entity::new((CommonProp, AgeProp { age: 3 })).with(ComponentC { ceta: 9 }).with(ComponentB { beta: -4 }),
        Entity::new((CommonProp, AgeProp { age: 4 }))
            .with(ComponentB { beta: 2 })
            .with(ComponentA { alpha: 0.25 })
            .with(ComponentC { ceta: 3 }),
    ];
    let mut entity_list: EntityList<EntityRef> = EntityList::new();
    // other records around the one under test
    entity_list.insert(Entity::new((CommonProp, AgeProp { age: 0 })).with(ComponentA { alpha: 100.0 }));
    for record in records {
        let before = payloads_of(&record);
        let age = record.age;
        let id = entity_list.insert(record);
        let back = entity_list.remove(id).unwrap();
        assert_eq!(payloads_of(&back), before);
        assert_eq!(back.age, age);
        let id = entity_list.insert(back);
        let stored = entity_list.get(id).unwrap();
        assert_eq!(stored.get::<ComponentA>().copied(), before.0);
        assert_eq!(stored.get::<ComponentB>().copied(), before.1);
        assert_eq!(stored.get::<ComponentC>().copied(), before.2);
        assert_eq!(stored.entity.age, age);
        entity_list.insert(Entity::new((CommonProp, AgeProp { age: 0 })).with(ComponentB { beta: 100 }));
    }
}

fn agrees(list: &EntityList<EntityRef>, known: &[EntityId]) {
    let with_a = handles(list.iter::<(ComponentA,)>());
    let with_b = handles(list.iter::<(ComponentB,)>());
    let with_c = handles(list.iter::<(ComponentC,)>());
    for id in known {
        match list.get(*id) {
            Some(record) => {
                assert_eq!(with_a.contains(id), record.has::<ComponentA>());
                assert_eq!(with_b.contains(id), record.has::<ComponentB>());
                assert_eq!(with_c.contains(id), record.has::<ComponentC>());
            },
            None => {
                assert!(!with_a.contains(id));
                assert!(!with_b.contains(id));
                assert!(!with_c.contains(id));
            },
        }
    }
}

#[test]
fn the_presence_index_agrees_with_the_records() {
    let mut entity_list: EntityList<EntityRef> = EntityList::new();
    let mut known = Vec::new();
    agrees(&entity_list, &known);
    let mut seed: u32 = 7;
    for round in 0..300u32 {
        seed = seed.wrapping_mul(1664525).wrapping_add(1013904223);
        let choice = (seed >> 8) % 8;
        if known.is_empty() || choice < 4 {
            let mut record = Entity::new((CommonProp, AgeProp { age: round }));
            if seed & 1 != 0 {
                record = record.with(ComponentA { alpha: 1.0 });
            }
            if seed & 2 != 0 {
                record = record.with(ComponentB { beta: 1 });
            }
            if seed & 4 != 0 {
                record = record.with(ComponentC { ceta: 1 });
            }
            known.push(entity_list.insert(record));
        } else {
            let id = known[(seed >> 12) as usize % known.len()];
            match choice {
                4 => {
                    entity_list.remove(id);
                },
                5 => {
                    if let Some(mut record) = entity_list.get_mut(id) {
                        if record.has::<ComponentB>() {
                            record.remove::<ComponentB>();
                        } else {
                            record.add(ComponentB { beta: 2 });
                        }
                    }
                    entity_list.refresh(id);
                },
                6 => {
                    entity_list.add_component_for_entity(id, ComponentC { ceta: 2 });
                },
                _ => {
                    entity_list.remove_component_for_entity::<ComponentA>(id);
                },
            }
        }
        agrees(&entity_list, &known);
    }
}

#[test]
fn a_query_for_two_types_finds_what_both_queries_find() {
    let mut entity_list: EntityList<EntityRef> = EntityList::new();
    let mut seed: u32 = 99;
    for round in 0..200u32 {
        seed = seed.wrapping_mul(1664525).wrapping_add(1013904223);
        let mut record = Entity::new((CommonProp, AgeProp { age: round }));
        if seed & 16 != 0 {
            record = record.with(ComponentA { alpha: 1.0 });
        }
        if seed & 32 != 0 {
            record = record.with(ComponentB { beta: 1 });
        }
        if seed & 64 != 0 {
            record = record.with(ComponentC { ceta: 1 });
        }
        let id = entity_list.insert(record);
        if seed & 128 != 0 && seed & 256 != 0 {
            entity_list.remove(id);
        }
    }
    let with_a = handles(entity_list.iter::<(ComponentA,)>());
    let with_b = handles(entity_list.iter::<(ComponentB,)>());
    let with_c = handles(entity_list.iter::<(ComponentC,)>());
    let both = |one: &Vec<EntityId>, other: &Vec<EntityId>| -> Vec<EntityId> {
        one.iter().filter(|id| other.contains(id)).copied().collect()
    };
    assert!(!with_a.is_empty() && !with_b.is_empty() && !with_c.is_empty());
    assert_eq!(handles(entity_list.iter::<(ComponentA, ComponentB)>()), both(&with_a, &with_b));
    assert_eq!(handles(entity_list.iter::<(ComponentB, ComponentA)>()), both(&with_a, &with_b));
    assert_eq!(handles(entity_list.iter::<(ComponentA, ComponentC)>()), both(&with_a, &with_c));
    assert_eq!(handles(entity_list.iter::<(ComponentB, ComponentC)>()), both(&with_b, &with_c));
    assert_eq!(
        handles(entity_list.iter::<(ComponentA, ComponentB, ComponentC)>()),
        both(&both(&with_a, &with_b), &with_c)
    );
    assert_eq!(
        handles(entity_list.iter::<(ComponentA, ComponentB, ComponentC, ComponentA)>()),
        both(&both(&with_a, &with_b), &with_c)
    );
    // each result counts upwards
    assert!(with_a.windows(2).all(|pair| pair[0].index < pair[1].index));
}

#[test]
fn a_query_for_no_type_finds_every_record() {
    let mut entity_list: EntityList<EntityRef> = EntityList::new();
    assert_eq!(handles(entity_list.iter::<()>()), Vec::<EntityId>::new());
    let [id_1, id_2, id_3, id_4, id_5, id_6] = six_entities(&mut entity_list);
    let bare = entity_list.insert(Entity::new((CommonProp, AgeProp { age: 0 })));
    entity_list.remove(id_3);
    assert_eq!(handles(entity_list.iter::<()>()), &[id_1, id_2, id_4, id_5, id_6, bare]);
    assert_eq!(handles(entity_list.iter::<()>()), all_handles(&entity_list));
    assert_eq!(handles_mut(entity_list.iter_mut::<()>()), &[id_1, id_2, id_4, id_5, id_6, bare]);
    assert_eq!(entity_list.len(), 6);
}

#[test]
fn a_write_to_a_record_reaches_the_index_by_refresh() {
    let mut entity_list: EntityList<EntityRef> = EntityList::new();
    let [_id_1, id_2, id_3, _id_4, id_5, id_6] = six_entities(&mut entity_list);
    assert_eq!(handles(entity_list.iter::<(ComponentB,)>()), &[id_2, id_3, id_5, id_6]);

    if let Some(mut e) = entity_list.get_mut(id_6) {
        assert_eq!(e.remove::<ComponentB>(), Some(Box::new(ComponentB { beta: 6 })));
        assert!(!e.has::<ComponentB>());
    }
    // the index has not heard of it
    assert_eq!(handles(entity_list.iter::<(ComponentB,)>()), &[id_2, id_3, id_5, id_6]);
    assert_eq!(handles(entity_list.iter::<(ComponentB, ComponentC)>()), &[id_5, id_6]);
    entity_list.refresh(id_6);
    assert_eq!(handles(entity_list.iter::<(ComponentB,)>()), &[id_2, id_3, id_5]);
    assert_eq!(handles(entity_list.iter::<(ComponentB, ComponentC)>()), &[id_5]);
    assert_eq!(handles(entity_list.iter::<(ComponentC,)>()).last(), Some(&id_6));

    // a refresh of a handle that names no record changes nothing
    entity_list.remove(id_5);
    entity_list.refresh(id_5);
    assert_eq!(handles(entity_list.iter::<(ComponentB,)>()), &[id_2, id_3]);
}

#[test]
fn attachments_added_and_removed_through_the_collection() {
    let mut entity_list: EntityList<EntityRef> = EntityList::new();
    let id_1 = entity_list.insert(Entity::new((CommonProp, AgeProp { age: 5 })));
    let id_2 = entity_list.insert(Entity::new((CommonProp, AgeProp { age: 6 })).with(ComponentB { beta: 5 }));
    assert_eq!(handles(entity_list.iter::<(ComponentA,)>()), Vec::<EntityId>::new());

    assert_eq!(entity_list.add_component_for_entity(id_1, ComponentA { alpha: 1.0 }), None);
    assert_eq!(handles(entity_list.iter::<(ComponentA,)>()), &[id_1]);
    assert_eq!(entity_list.get(id_1).unwrap().get::<ComponentA>(), Some(&ComponentA { alpha: 1.0 }));

    // a second payload takes the place of the first, behind the same handle
    let handle = entity_list.get(id_1).unwrap().entity.a;
    assert_eq!(entity_list.add_component_for_entity(id_1, ComponentA { alpha: 2.0 }), None);
    assert_eq!(entity_list.get(id_1).unwrap().entity.a, handle);
    assert_eq!(entity_list.get(id_1).unwrap().get::<ComponentA>(), Some(&ComponentA { alpha: 2.0 }));
    assert_eq!(handles(entity_list.iter::<(ComponentA,)>()), &[id_1]);

    assert_eq!(
        entity_list.remove_component_for_entity::<ComponentB>(id_2),
        Some(Box::new(ComponentB { beta: 5 }))
    );
    assert_eq!(handles(entity_list.iter::<(ComponentB,)>()), Vec::<EntityId>::new());
    assert_eq!(entity_list.remove_component_for_entity::<ComponentB>(id_2), None);
    assert_eq!(entity_list.remove_component_for_entity::<ComponentC>(id_2), None);
    assert!(entity_list.get(id_2).unwrap().get::<ComponentB>().is_none());

    // a handle that names no record: the payload comes back
    assert_eq!(entity_list.remove(id_1).map(|e| payloads_of(&e)), Some((Some(ComponentA { alpha: 2.0 }), None, None)));
    assert_eq!(
        entity_list.add_component_for_entity(id_1, ComponentA { alpha: 3.0 }),
        Some(ComponentA { alpha: 3.0 })
    );
    assert_eq!(entity_list.remove_component_for_entity::<ComponentA>(id_1), None);
    assert_eq!(handles(entity_list.iter::<(ComponentA,)>()), Vec::<EntityId>::new());
    assert!(entity_list.get(id_1).is_none());
    assert!(entity_list.get_mut(id_1).is_none());
    assert!(!entity_list.contains(id_1));
    assert!(entity_list.contains(id_2));
    assert_eq!(entity_list.len(), 1);
}

#[test]
fn a_query_for_one_type_hands_out_the_payloads() {
    let mut entity_list: EntityList<EntityRef> = EntityList::new();
    let [_id_1, id_2, id_3, _id_4, id_5, id_6] = six_entities(&mut entity_list);
    entity_list.remove(id_3);
    let mut found = Vec::new();
    let mut it = entity_list.iter_single::<ComponentB>();
    let mut copy = it.clone();
    while let Some((id, record, payload)) = it.next() {
        found.push((id, record.age.age, payload.beta));
    }
    assert_eq!(found, vec![(id_2, 1, 5), (id_5, 6, 6), (id_6, 6, 6)]);
    assert_eq!(copy.next().map(|(id, _, payload)| (id, *payload)), Some((id_2, ComponentB { beta: 5 })));
    assert_eq!(single_handles::<ComponentA>(&entity_list), handles(entity_list.iter::<(ComponentA,)>()));
    assert_eq!(single_handles::<ComponentC>(&entity_list), handles(entity_list.iter::<(ComponentC,)>()));
}

#[test]
fn a_removed_record_leaves_its_slot_and_its_pool_handles() {
    let mut entity_list: EntityList<EntityRef> = EntityList::new();
    let id_1 = entity_list.insert(Entity::new((CommonProp, AgeProp { age: 1 })).with(ComponentA { alpha: 1.0 }));
    let id_2 = entity_list.insert(Entity::new((CommonProp, AgeProp { age: 2 })).with(ComponentA { alpha: 2.0 }));
    assert_eq!(id_1, EntityId::new(0, 0));
    assert_eq!(id_2, EntityId::new(1, 0));
    let removed = entity_list.remove(id_1).unwrap();
    assert_eq!(removed.get::<ComponentA>(), Some(&ComponentA { alpha: 1.0 }));
    assert!(entity_list.remove(id_1).is_none());
    let id_3 = entity_list.insert(Entity::new((CommonProp, AgeProp { age: 3 })).with(ComponentB { beta: 3 }));
    assert_eq!(id_3, EntityId::new(0, 1));
    // the slot's marks went with the record
    assert_eq!(handles(entity_list.iter::<(ComponentA,)>()), &[id_2]);
    assert_eq!(handles(entity_list.iter::<(ComponentB,)>()), &[id_3]);
    assert_eq!(entity_list.get(id_2).unwrap().get::<ComponentA>(), Some(&ComponentA { alpha: 2.0 }));
    assert!(entity_list.get(id_1).is_none());
}

#[test]
fn a_cloned_collection_shares_nothing() {
    let mut entity_list: EntityList<EntityRef> = EntityList::new();
    let [id_1, id_2, id_3, _id_4, _id_5, id_6] = six_entities(&mut entity_list);
    let mut copy = entity_list.clone();

    entity_list.remove(id_1);
    entity_list.add_component_for_entity(id_2, ComponentA { alpha: 9.0 });
    if let Some(mut e) = entity_list.get_mut(id_3) {
        e.mutate(|a: &mut ComponentA| a.alpha = 70.0);
    }

    assert_eq!(handles(copy.iter::<(ComponentA,)>()), &[id_1, id_3, id_6]);
    assert_eq!(copy.get(id_1).unwrap().get::<ComponentA>(), Some(&ComponentA { alpha: 5.0 }));
    assert_eq!(copy.get(id_3).unwrap().get::<ComponentA>(), Some(&ComponentA { alpha: 6.0 }));
    assert_eq!(copy.len(), 6);
    assert_eq!(handles(entity_list.iter::<(ComponentA,)>()), &[id_2, id_3, id_6]);
    assert_eq!(entity_list.get(id_3).unwrap().get::<ComponentA>(), Some(&ComponentA { alpha: 70.0 }));

    copy.remove(id_6);
    assert!(entity_list.contains(id_6));
    assert_eq!(entity_list.get(id_6).unwrap().get::<ComponentC>(), Some(&ComponentC { ceta: 6 }));
}

#[test]
fn a_collection_is_rebuilt_from_what_is_written_out() {
    let mut entity_list: EntityList<EntityRef> = EntityList::new();
    let [id_1, id_2, id_3, id_4, id_5, id_6] = six_entities(&mut entity_list);
    entity_list.remove(id_3);
    entity_list.remove(id_1);

    let naked = entity_list.naked_entries();
    assert_eq!(naked.len(), entity_list.entities().capacity());
    let entries = naked
        .into_iter()
        .map(|entry| entry.map(EntityRef::from_naked))
        .collect::<Vec<_>>();
    let arena = smec::genarena::GenArena::try_from_raw(
        entries,
        entity_list.len(),
        entity_list.entities().next_free(),
    )
    .unwrap();
    let mut rebuilt = EntityList::from_raw(arena, entity_list.components_storage().clone());

    for id in [id_1, id_2, id_3, id_4, id_5, id_6] {
        assert_eq!(rebuilt.contains(id), entity_list.contains(id));
    }
    assert_eq!(handles(rebuilt.iter::<(ComponentA,)>()), &[id_6]);
    assert_eq!(handles(rebuilt.iter::<(ComponentB,)>()), &[id_2, id_5, id_6]);
    assert_eq!(handles(rebuilt.iter::<(ComponentC,)>()), &[id_4, id_5, id_6]);
    assert_eq!(rebuilt.get(id_2).unwrap().get::<ComponentB>(), Some(&ComponentB { beta: 5 }));
    // both hand out the same handles from here on
    let next = Entity::new((CommonProp, AgeProp { age: 7 })).with(ComponentA { alpha: 7.0 });
    assert_eq!(rebuilt.insert(next.clone()), entity_list.insert(next));
    assert_eq!(handles(rebuilt.iter::<(ComponentA,)>()), handles(entity_list.iter::<(ComponentA,)>()));

    // the presence index can be derived anew at any time
    rebuilt.regenerate_all_component_bitsets();
    assert_eq!(handles(rebuilt.iter::<(ComponentA,)>()), handles(entity_list.iter::<(ComponentA,)>()));
    assert_eq!(handles(rebuilt.iter::<(ComponentB,)>()), &[id_2, id_5, id_6]);
}

#[test]
fn the_default_payload_stands_in_where_there_is_none() {
    let mut e = Entity::new((CommonProp, AgeProp { age: 5 }));
    e.get_mut_or_default::<ComponentB>().beta += 1;
    assert_eq!(e.get::<ComponentB>(), Some(&ComponentB { beta: 41 }));
    e.get_mut_or_default::<ComponentB>().beta += 1;
    assert_eq!(e.get::<ComponentB>(), Some(&ComponentB { beta: 42 }));
    assert_eq!(e.mutate_or_default(|b: &mut ComponentB| { b.beta *= 2; b.beta }), 84);

    let e = Entity::new((CommonProp, AgeProp { age: 5 })).with_mutation_or_default(|b: &mut ComponentB| b.beta -= 1);
    assert_eq!(e.get::<ComponentB>(), Some(&ComponentB { beta: 39 }));
    let e = e.with_mutation_or_default(|b: &mut ComponentB| b.beta -= 1);
    assert_eq!(e.get::<ComponentB>(), Some(&ComponentB { beta: 38 }));

    // without a payload a mutation does nothing
    let e = Entity::new((CommonProp, AgeProp { age: 5 })).with_mutation(|b: &mut ComponentB| b.beta -= 1);
    assert_eq!(e.get::<ComponentB>(), None);
    assert!(!e.has::<ComponentB>());
    let mut e = e;
    assert_eq!(e.mutate(|b: &mut ComponentB| b.beta), None);
    assert_eq!(e.peek(|b: &ComponentB| b.beta), None);
    e.add(ComponentB { beta: 1 });
    assert_eq!(e.peek(|b: &ComponentB| b.beta), Some(1));
    assert_eq!(e.mutate(|b: &mut ComponentB| { b.beta += 1; b.beta }), Some(2));
    assert_eq!(e.remove::<ComponentB>(), Some(Box::new(ComponentB { beta: 2 })));
    assert_eq!(e.remove::<ComponentB>(), None);
}

#[test]
fn a_change_that_mutates_needs_a_payload() {
    let e = Entity::new((CommonProp, AgeProp { age: 5 }));
    let e = e.with_component_change(|_: &mut Entity| -> ChangeComponent<ComponentA, _> {
        ChangeComponent::Mutate(|a: &mut ComponentA| a.alpha += 1.0)
    });
    assert_eq!(e.get::<ComponentA>(), None);
    let e = e.with_component_change(|_: &mut Entity| -> ChangeComponent<ComponentA> {
        ChangeComponent::Remove
    });
    assert_eq!(e.get::<ComponentA>(), None);
}

#[test]
fn a_pool_is_written_out_and_read_back_by_its_pairs() {
    let mut entity_list: EntityList<EntityRef> = EntityList::new();
    let [_id_1, id_2, _id_3, _id_4, _id_5, _id_6] = six_entities(&mut entity_list);
    entity_list.remove(id_2);
    let pool = <ComponentB as RefComponent<EntityRef>>::get_single_cs(entity_list.components_storage());
    let pairs: Vec<(usize, ComponentB)> = pool.pairs().into_iter().map(|(key, payload)| (key, *payload)).collect();
    assert_eq!(
        pairs,
        vec![(1, ComponentB { beta: 6 }), (2, ComponentB { beta: 6 }), (3, ComponentB { beta: 6 })]
    );
    let rebuilt = Pool::from_pairs(pairs.clone());
    assert_eq!(rebuilt.pairs().into_iter().map(|(key, payload)| (key, *payload)).collect::<Vec<_>>(), pairs);
    // of two payloads with one handle the later one stays
    let pool = Pool::from_pairs(vec![(4, 'a'), (1, 'b'), (4, 'c')]);
    assert_eq!(pool.pairs(), vec![(1, &'b'), (4, &'c')]);
    let pool: Pool<u8> = Pool::new();
    assert!(pool.pairs().is_empty());
}

#[test]
fn the_index_limit_is_the_fourth_power_of_the_word_size() {
    let bits = usize::BITS as u64;
    assert_eq!(smec::bitset::max_index() as u64, bits * bits * bits * bits);
}

#[test]
fn a_pooled_record_is_read_and_written_with_the_pools() {
    let mut entity_list: EntityList<EntityRef> = EntityList::new();
    let id = entity_list.insert(Entity::new((CommonProp, AgeProp { age: 3 })).with(ComponentA { alpha: 1.0 }));
    {
        let record = entity_list.get(id).unwrap();
        assert!(record.has::<ComponentA>());
        assert!(!record.has::<ComponentB>());
        assert_eq!(record.peek(|a: &ComponentA| a.alpha * 2.0), Some(2.0));
        assert_eq!(record.peek(|b: &ComponentB| b.beta), None);
        assert_eq!(record.entity.age, AgeProp { age: 3 });
    }
    {
        let mut record = entity_list.get_mut(id).unwrap();
        record.get_mut_or_default::<ComponentB>().beta += 2;
        assert_eq!(record.get::<ComponentB>(), Some(&ComponentB { beta: 42 }));
        assert_eq!(record.mutate_or_default(|b: &mut ComponentB| { b.beta += 1; b.beta }), 43);
        assert_eq!(record.mutate_or_default(|a: &mut ComponentA| { a.alpha += 1.0; a.alpha }), 2.0);
        assert_eq!(record.mutate(|c: &mut ComponentC| c.ceta), None);
        record.entity.age = AgeProp { age: 4 };
    }
    entity_list.refresh(id);
    assert_eq!(handles(entity_list.iter::<(ComponentA, ComponentB)>()), &[id]);
    let back = entity_list.remove(id).unwrap();
    assert_eq!(back.age, AgeProp { age: 4 });
    assert_eq!(payloads_of(&back), (Some(ComponentA { alpha: 2.0 }), Some(ComponentB { beta: 43 }), None));
}

#[test]
fn the_bit_set_of_a_type_is_taken_away_and_derived_anew() {
    let mut entity_list: EntityList<EntityRef> = EntityList::new();
    let [id_1, _id_2, id_3, _id_4, _id_5, id_6] = six_entities(&mut entity_list);
    assert_eq!(handles(entity_list.iter::<(ComponentA,)>()), &[id_1, id_3, id_6]);

    assert!(entity_list.remove_bitset_for_component::<ComponentA>());
    assert!(!entity_list.remove_bitset_for_component::<ComponentA>());
    // insertions and removals go on without the bit set
    let id_7 = entity_list.insert(Entity::new((CommonProp, AgeProp { age: 7 })).with(ComponentA { alpha: 7.0 }));
    entity_list.remove(id_3);
    assert_eq!(entity_list.add_component_for_entity(id_1, ComponentB { beta: 1 }), None);
    assert_eq!(handles(entity_list.iter::<(ComponentB,)>()).first(), Some(&id_1));

    entity_list.add_bitset_for_component::<ComponentA>();
    assert_eq!(handles(entity_list.iter::<(ComponentA,)>()), &[id_1, id_6, id_7]);
    assert_eq!(handles(entity_list.iter::<(ComponentA, ComponentB)>()), &[id_1, id_6]);
    // a bit set that is there is derived anew as well
    entity_list.add_bitset_for_component::<ComponentA>();
    assert_eq!(handles(entity_list.iter::<(ComponentA,)>()), &[id_1, id_6, id_7]);
    assert!(entity_list.remove_bitset_for_component::<ComponentC>());
}

/// Writes a collection out as its slots, length, free list head and pools,
/// and reads it back.
fn stored_and_read_back(list: &EntityList<EntityRef>) -> EntityList<EntityRef> {
    let entries = list
        .naked_entries()
        .into_iter()
        .map(|entry| entry.map(EntityRef::from_naked))
        .collect::<Vec<_>>();
    let arena = smec::genarena::GenArena::try_from_raw(entries, list.len(), list.entities().next_free())
        .expect("the slots of a collection are an arena");
    EntityList::from_raw(arena, list.components_storage().clone())
}

fn are_equal(a: Option<smec::Pooled<'_, EntityRef>>, b: Option<smec::Pooled<'_, EntityRef>>) -> bool {
    match (a, b) {
        (Some(a), Some(b)) => {
            a.get::<ComponentA>() == b.get::<ComponentA>()
                && a.get::<ComponentB>() == b.get::<ComponentB>()
                && a.entity.common == b.entity.common
        },
        (None, None) => true,
        _ => false,
    }
}

fn common() -> (CommonProp, AgeProp) {
    (CommonProp, AgeProp { age: 0 })
}

#[test]
fn deserialized_have_same_values() {
    let mut entity_list: EntityList<EntityRef> = EntityList::new();

    let id_1 = entity_list.insert(Entity::new(common()).with(ComponentA { alpha: 5.0 }));
    let id_2 = entity_list.insert(Entity::new(common()).with(ComponentB { beta: 5 }));
    let id_3 = entity_list.insert(Entity::new(common()).with(ComponentB { beta: 6 }).with(ComponentA { alpha: 6.0 }));
    let id_4 = entity_list.insert(Entity::new(common()).with(ComponentB { beta: 6 }).with(ComponentA { alpha: 6.0 }));

    entity_list.remove(id_3);

    let deserialized_entity_list = stored_and_read_back(&entity_list);

    // Check both arenas have the same values
    assert!(are_equal(entity_list.get(id_1), deserialized_entity_list.get(id_1)));
    assert!(are_equal(entity_list.get(id_2), deserialized_entity_list.get(id_2)));
    assert!(are_equal(entity_list.get(id_3), deserialized_entity_list.get(id_3)));
    assert!(are_equal(entity_list.get(id_4), deserialized_entity_list.get(id_4)));

    let all_entities = all_handles(&entity_list);
    let only_comp_a = handles(entity_list.iter::<(ComponentA,)>());
    let only_comp_b = handles(entity_list.iter::<(ComponentB,)>());
    let comp_a_and_b = handles(entity_list.iter::<(ComponentA, ComponentB)>());

    assert_eq!(all_entities, &[id_1, id_2, id_4]);
    assert_eq!(only_comp_a, &[id_1, id_4]);
    assert_eq!(only_comp_b, &[id_2, id_4]);

    assert_eq!(comp_a_and_b, &[id_4]);

    assert_eq!(all_handles(&deserialized_entity_list), &[id_1, id_2, id_4]);
    assert_eq!(handles(deserialized_entity_list.iter::<(ComponentA,)>()), &[id_1, id_4]);
    assert_eq!(handles(deserialized_entity_list.iter::<(ComponentB,)>()), &[id_2, id_4]);
    assert_eq!(handles(deserialized_entity_list.iter::<(ComponentA, ComponentB)>()), &[id_4]);
}

#[test]
fn post_deserialize_same_behavior() {
    let mut entity_list: EntityList<EntityRef> = EntityList::new();

    let id_1 = entity_list.insert(Entity::new(common()).with(ComponentA { alpha: 5.0 }));
    let id_2 = entity_list.insert(Entity::new(common()).with(ComponentB { beta: 5 }));
    let id_3 = entity_list.insert(Entity::new(common()).with(ComponentB { beta: 6 }).with(ComponentA { alpha: 6.0 }));
    let _id_4 = entity_list.insert(Entity::new(common()).with(ComponentB { beta: 6 }).with(ComponentA { alpha: 6.0 }));
    entity_list.remove(id_1);
    entity_list.remove(id_3);
    entity_list.remove(id_2);

    let mut deserialized_entity_list = stored_and_read_back(&entity_list);

    let id_10 = entity_list.insert(Entity::new(common()).with(ComponentB { beta: 5 }));
    let id_11 = entity_list.insert(Entity::new(common()).with(ComponentA { alpha: 0.5 }));
    let id_20 = deserialized_entity_list.insert(Entity::new(common()).with(ComponentB { beta: 5 }));
    let id_21 = deserialized_entity_list.insert(Entity::new(common()).with(ComponentA { alpha: 0.5 }));
    assert_eq!(id_10, id_20);
    assert_eq!(id_11, id_21);
    let only_comp_a1 = handles(entity_list.iter::<(ComponentA,)>());
    let only_comp_b1 = handles(entity_list.iter::<(ComponentB,)>());
    let only_comp_a2 = handles(deserialized_entity_list.iter::<(ComponentA,)>());
    let only_comp_b2 = handles(deserialized_entity_list.iter::<(ComponentB,)>());
    assert_eq!(only_comp_a1, only_comp_a2);
    assert_eq!(only_comp_b1, only_comp_b2);
}
