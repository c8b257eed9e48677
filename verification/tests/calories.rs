use advent::calories::extract_calories_per_elf;

#[test]
fn without_ending_new_line() {
    let calories_notes = "100
    400
    300

    100
    50

    200";
    let elf_calories = extract_calories_per_elf(calories_notes);
    assert_eq!(elf_calories, vec![800, 150, 200]);
}

#[test]
fn with_ending_new_line() {
    let calories_notes = "10
    900
    300
    55

    100
    200
    50

    300

    500

    200
    100
    30
    ";
    let elf_calories = extract_calories_per_elf(calories_notes);
    assert_eq!(elf_calories, vec![1265, 350, 300, 500, 330]);
}

#[test]
fn calories_empty_notes_give_no_groups() {
    let elf_calories = extract_calories_per_elf("");
    assert_eq!(elf_calories, Vec::<i32>::new());
}

#[test]
fn calories_consecutive_blank_lines_keep_zero_group() {
    let elf_calories = extract_calories_per_elf("100\n\n\n200");
    assert_eq!(elf_calories, vec![100, 0, 200]);
}
