use battle_arena_2000::entity_manager::{EntityIterator, EntityManager};
use battle_arena_2000::Entity;
use std::collections::BTreeSet;

fn collect(mut it: EntityIterator) -> Vec<Entity> {
    let mut out = Vec::new();
    while let Some(e) = it.next() {
        out.push(e);
    }
    out
}

#[derive(Clone, Copy)]
enum EntityManagerAction {
    NewEntity,
    DeleteEntity(Entity),
}

#[test]
fn manual() {
    let actions = [
        EntityManagerAction::NewEntity,
        EntityManagerAction::NewEntity,
        EntityManagerAction::NewEntity,
        EntityManagerAction::NewEntity,
        EntityManagerAction::NewEntity,
        EntityManagerAction::NewEntity,
        EntityManagerAction::NewEntity,
        EntityManagerAction::NewEntity,
        EntityManagerAction::DeleteEntity(Entity(8)),
        EntityManagerAction::NewEntity,
    ];
    let mut entity_manager = EntityManager::new();
    let mut reference = BTreeSet::new();

    for action in actions.iter() {
        match action {
            EntityManagerAction::NewEntity => {
                let e = entity_manager.next_entity();
                println!("inserting entity {:?}", e);
                reference.insert(e);
            }
            EntityManagerAction::DeleteEntity(e) => {
                entity_manager.remove_entity(*e);
                println!("deleting entity {:?}", e);
                reference.remove(e);
            }
        }
    }

    let actual: Vec<Entity> = collect(entity_manager.iter());
    let expected: Vec<Entity> = reference.iter().cloned().collect();

    assert_eq!(actual, expected);
}

#[test]
fn recycles_the_smallest_removed_identifier() {
    let mut manager = EntityManager::new();
    for expected in 0..5u32 {
        assert_eq!(manager.next_entity(), Entity(expected));
    }
    manager.remove_entity(Entity(3));
    manager.remove_entity(Entity(1));
    assert_eq!(collect(manager.iter()), vec![Entity(0), Entity(2), Entity(4)]);

    assert_eq!(manager.next_entity(), Entity(1));
    assert_eq!(manager.next_entity(), Entity(3));
    assert_eq!(manager.next_entity(), Entity(5));
    assert_eq!(
        collect(manager.iter()),
        vec![Entity(0), Entity(1), Entity(2), Entity(3), Entity(4), Entity(5)]
    );
}

#[test]
fn removing_the_newest_identifier_shrinks_the_counter() {
    let mut manager = EntityManager::new();
    for _ in 0..3 {
        manager.next_entity();
    }
    manager.remove_entity(Entity(2));
    assert_eq!(collect(manager.iter()), vec![Entity(0), Entity(1)]);
    assert_eq!(manager.next_entity(), Entity(2));

    // Removing an identifier that was never handed out changes nothing.
    manager.remove_entity(Entity(99));
    assert_eq!(collect(manager.iter()), vec![Entity(0), Entity(1), Entity(2)]);
}
