use container_basics::reviews::ReviewMap;

fn book_reviews() -> ReviewMap {
    let mut m = ReviewMap::new();
    m.insert(
        String::from("Adventures of Huckleberry Finn"),
        String::from("My favourite book."),
    );
    m.insert(
        String::from("Grimms' Fairy Tales"),
        String::from("Masterpiece."),
    );
    m.insert(
        String::from("Pride and Prejudice"),
        String::from("Very enjoyable."),
    );
    m.insert(
        String::from("The Adventures of Sherlock Holmes"),
        String::from("Eye lyked it alot."),
    );
    m
}

#[test]
fn four_reviews_but_not_les_mis() {
    let m = book_reviews();
    assert_eq!(m.contains(&String::from("Les Miserables")), false);
    assert_eq!(m.len(), 4);
}

#[test]
fn sherlock_present_until_removed() {
    let mut m = book_reviews();
    let sherlock = String::from("The Adventures of Sherlock Holmes");
    assert_eq!(m.contains(&sherlock), true);
    m.remove(&sherlock);
    assert_eq!(m.contains(&sherlock), false);
    assert_eq!(m.len(), 3);
}

#[test]
fn indexed_read_of_present_key() {
    let m = book_reviews();
    let jane = String::from("Pride and Prejudice");
    assert_eq!(m.read(&jane), "Very enjoyable.");
}

#[test]
fn checked_lookup() {
    let m = book_reviews();
    assert_eq!(
        m.get(&String::from("Grimms' Fairy Tales")),
        Some(&String::from("Masterpiece."))
    );
    assert_eq!(m.get(&String::from("Moby Dick")), None);
}

#[test]
fn insert_overwrites_existing_key() {
    let mut m = ReviewMap::new();
    m.insert(String::from("Moby Dick"), String::from("Too long."));
    m.insert(String::from("Moby Dick"), String::from("A classic."));
    assert_eq!(m.len(), 1);
    assert_eq!(m.read(&String::from("Moby Dick")), "A classic.");
}

#[test]
fn remove_absent_key_is_a_no_op() {
    let mut m = book_reviews();
    m.remove(&String::from("Moby Dick"));
    assert_eq!(m.len(), 4);
    assert_eq!(m.contains(&String::from("Pride and Prejudice")), true);
}

#[test]
fn empty_map_has_no_entries() {
    let m = ReviewMap::new();
    assert_eq!(m.len(), 0);
    assert_eq!(m.contains(&String::from("Adventures of Huckleberry Finn")), false);
    assert_eq!(m.get(&String::from("Adventures of Huckleberry Finn")), None);
}
