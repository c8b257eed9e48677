use advent::rucksack::ElfGroup;
use advent::rucksack::GamePart1;
use advent::rucksack::GamePart2;
use advent::rucksack::Rucksack;

#[test]
fn test_create_rucksack_basic() {
    let rucksack = Rucksack::new("ffabcCBADf");

    // The compartments are duplicate-free item lists in first-occurrence
    // order, so if the repeated item repeats, the sizes differ.
    assert_eq!(rucksack.compartments.0.len(), 4);
    assert_eq!(rucksack.compartments.1.len(), 5);
    assert_eq!(rucksack.compartments.0, vec!['f', 'a', 'b', 'c']);
    assert_eq!(rucksack.compartments.1, vec!['C', 'B', 'A', 'D', 'f']);
    assert_eq!(rucksack.repetitive_item, 'f');
}

#[test]
fn test_create_rucksack_examples() {
    let rucksacks = vec![
        "vJrwpWtwJgWrhcsFMMfFFhFp",
        "jqHRNqRjqzjGDLGLrsFMfFZSrLrFZsSL",
        "PmmdzqPrVvPwwTWBwg",
        "wMqvLMZHhHMvwLHjbvcjnnSBnvTQFn",
        "ttgJtRGJQctTZtZT",
        "CrZsJsPPZsGzwwsLwLmpwMDw",
    ];
    let expected_repetitive = vec!['p', 'L', 'P', 'v', 't', 's'];
    let mut total = 0;
    let expected_total = 157;

    for (rucksack, expected_repetitive_item) in rucksacks.iter().zip(expected_repetitive.iter()) {
        let rucksack = Rucksack::new(rucksack);
        assert_eq!(rucksack.repetitive_item, *expected_repetitive_item);
        total += Rucksack::get_item_priority(Some(*expected_repetitive_item), None);
    }
    assert_eq!(total, expected_total);
}

#[test]
fn test_map_item_type_to_priority() {
    assert_eq!(Rucksack::get_item_priority(Some('a'), None), 1);
    assert_eq!(Rucksack::get_item_priority(Some('z'), None), 26);
    assert_eq!(Rucksack::get_item_priority(Some('A'), None), 27);
    assert_eq!(Rucksack::get_item_priority(Some('Z'), None), 52);
}

#[test]
fn test_rucksack_game_examples() {
    let rucksacks = "
    vJrwpWtwJgWrhcsFMMfFFhFp
    jqHRNqRjqzjGDLGLrsFMfFZSrLrFZsSL

    PmmdzqPrVvPwwTWBwg
    wMqvLMZHhHMvwLHjbvcjnnSBnvTQFn
    ttgJtRGJQctTZtZT
    CrZsJsPPZsGzwwsLwLmpwMDw";
    let expected_total = 157;

    let game = GamePart1::new(rucksacks);

    assert_eq!(game.calculate_repetitive_item_priorities(), expected_total);
}

#[test]
fn test_find_badge_example() {
    let group = ElfGroup {
        elves: vec![
            Rucksack::new("vJrwpWtwJgWrhcsFMMfFFhFp"),
            Rucksack::new("jqHRNqRjqzjGDLGLrsFMfFZSrLrFZsSL"),
            Rucksack::new("PmmdzqPrVvPwwTWBwg"),
        ],
    };

    assert_eq!(group.find_badge(), 'r');
}

#[test]
fn test_elf_group_example() {
    let rucksacks = "
    vJrwpWtwJgWrhcsFMMfFFhFp
    jqHRNqRjqzjGDLGLrsFMfFZSrLrFZsSL
    PmmdzqPrVvPwwTWBwg
    wMqvLMZHhHMvwLHjbvcjnnSBnvTQFn
    ttgJtRGJQctTZtZT
    CrZsJsPPZsGzwwsLwLmpwMDw
    ";
    let game1 = GamePart1::new(rucksacks);
    let game2 = GamePart2::new(game1.rucksacks);

    let total_groups_badges = game2.calculate_group_badges_priorities();
    assert_eq!(total_groups_badges, 70);
}
