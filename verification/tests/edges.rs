use symbol_table::text::same_text;
use symbol_table::text::substring;
use symbol_table::Symbol;
use symbol_table::SymbolTable;

#[test]
fn new_table_is_empty() {
    let table = SymbolTable::new();
    assert_eq!(table.len(), 0);
    assert!(table.iter().is_empty());
    assert!(!table.has(""));
    assert!(table.maybe_get("hello").is_none());
}

#[test]
fn default_table_is_empty() {
    let table = SymbolTable::default();
    assert_eq!(table.len(), 0);
    assert!(!table.has("hello"));
}

#[test]
fn interning_twice_gives_the_same_symbol() {
    let mut table = SymbolTable::new();
    let first = table.get("hello");
    assert_eq!(table.len(), 1);
    let second = table.get("hello");
    assert_eq!(table.len(), 1);
    assert!(first.eq(&second, &table));
    assert_eq!(first.str(&table), second.str(&table));
    assert_eq!(table.iter(), vec!["hello"]);
}

#[test]
fn interned_text_reads_back() {
    let mut table = SymbolTable::new();
    for text in ["", "a", "hello world", "héllo wörld", "日本語", "tab\there", "🙂🙃"] {
        let symbol = table.get(text);
        assert_eq!(symbol.str(&table), text);
        assert_eq!(symbol.to_string(&table), text.to_string());
        assert!(symbol.eq_str(&table, text));
        assert!(symbol.belongs_to(&table));
    }
    assert_eq!(table.len(), 7);
}

#[test]
fn len_counts_strings_not_symbols() {
    let mut table = SymbolTable::new();
    assert_eq!(table.len(), 0);
    let hello = table.get("hello");
    table.get("world");
    assert_eq!(table.len(), 2);
    table.get("hello");
    assert_eq!(table.len(), 2);
    let slice = hello.slice(&table, 0..2).unwrap();
    assert!(slice.eq_str(&table, "he"));
    assert_eq!(table.len(), 2);
}

#[test]
fn maybe_get_finds_only_what_was_interned() {
    let mut table = SymbolTable::new();
    let hello = table.get("hello");
    let found = table.maybe_get("hello").unwrap();
    assert!(found.eq(&hello, &table));
    assert!(found.eq_str(&table, "hello"));
    assert!(table.maybe_get("world").is_none());
    assert!(table.maybe_get("hell").is_none());
    assert!(table.maybe_get("hello ").is_none());
    assert_eq!(table.len(), 1);
}

#[test]
fn has_follows_maybe_get() {
    let mut table = SymbolTable::new();
    table.get("hello");
    assert!(table.has("hello"));
    assert!(!table.has("world"));
    assert!(!table.has(""));
    table.get("");
    assert!(table.has(""));
    assert_eq!(table.len(), 2);
}

#[test]
fn iter_keeps_insertion_order_and_restarts() {
    let mut table = SymbolTable::new();
    table.get("hello");
    table.get("world");
    table.get("hello world");
    table.get("world");
    assert_eq!(table.iter(), vec!["hello", "world", "hello world"]);
    assert_eq!(table.iter(), vec!["hello", "world", "hello world"]);

    let longest = table
        .iter()
        .into_iter()
        .max_by_key(|string| string.len())
        .unwrap()
        .to_string();
    assert_eq!(longest, "hello world");
    let symbol = table.get(&longest);
    assert!(symbol.eq_str(&table, "hello world"));
    assert_eq!(table.len(), 3);
}

#[test]
fn str_of_a_position() {
    let mut table = SymbolTable::new();
    table.get("hello");
    table.get("world");
    assert_eq!(table.str(0), "hello");
    assert_eq!(table.str(1), "world");
    assert_eq!(table.str(2), "");
    assert_eq!(table.str(usize::MAX), "");
}

#[test]
fn positions_are_stable_as_the_table_grows() {
    let mut table = SymbolTable::new();
    let first = table.get("first");
    let piece = first.slice(&table, 1..4).unwrap();
    for i in 0..200 {
        let text = format!("filler {}", i);
        table.get(&text);
    }
    assert_eq!(table.len(), 201);
    assert_eq!(first.str(&table), "first");
    assert_eq!(piece.str(&table), "irs");
    assert_eq!(table.str(0), "first");
    assert_eq!(table.str(200), "filler 199");
    let again = table.get("first");
    assert!(again.eq(&first, &table));
    assert_eq!(table.len(), 201);
}

#[test]
fn slice_of_whole_entry_takes_start_and_end() {
    let mut table = SymbolTable::new();
    let symbol = table.get("hello world");
    assert_eq!(symbol.slice(&table, 0..11).unwrap().str(&table), "hello world");
    assert_eq!(symbol.slice(&table, 0..0).unwrap().str(&table), "");
    assert_eq!(symbol.slice(&table, 11..11).unwrap().str(&table), "");
    assert_eq!(symbol.slice(&table, 4..7).unwrap().str(&table), "o w");
    assert!(symbol.slice(&table, 0..12).is_none());
    assert!(symbol.slice(&table, 11..12).is_none());
    assert!(symbol.slice(&table, usize::MAX..usize::MAX).is_none());
}

#[test]
fn slice_with_start_behind_end_is_refused() {
    let mut table = SymbolTable::new();
    let symbol = table.get("hello world");
    let start: usize = 5;
    let end: usize = 3;
    assert!(symbol.slice(&table, start..end).is_none());
}

#[test]
fn slice_inside_a_character_is_refused() {
    let mut table = SymbolTable::new();
    let symbol = table.get("héllo");
    assert_eq!(symbol.str(&table).len(), 6);
    assert_eq!(symbol.slice(&table, 0..1).unwrap().str(&table), "h");
    assert!(symbol.slice(&table, 0..2).is_none());
    assert!(symbol.slice(&table, 2..3).is_none());
    assert_eq!(symbol.slice(&table, 0..3).unwrap().str(&table), "hé");
    assert_eq!(symbol.slice(&table, 1..3).unwrap().str(&table), "é");
    assert_eq!(symbol.slice(&table, 3..6).unwrap().str(&table), "llo");

    let wide = table.get("a🙂b");
    assert_eq!(wide.slice(&table, 1..5).unwrap().str(&table), "🙂");
    assert!(wide.slice(&table, 1..2).is_none());
    assert!(wide.slice(&table, 1..3).is_none());
    assert!(wide.slice(&table, 1..4).is_none());
    assert!(wide.slice(&table, 4..5).is_none());
}

#[test]
fn slice_of_a_slice_counts_its_end_from_its_start() {
    let mut table = SymbolTable::new();
    let root = table.get("hello world!");
    let world = root.slice(&table, 6..11).unwrap();
    assert_eq!(world.str(&table), "world");

    assert_eq!(world.slice(&table, 0..5).unwrap().str(&table), "world");
    assert_eq!(world.slice(&table, 0..0).unwrap().str(&table), "");
    assert_eq!(world.slice(&table, 1..3).unwrap().str(&table), "orl");
    assert_eq!(world.slice(&table, 1..4).unwrap().str(&table), "orld");
    assert_eq!(world.slice(&table, 2..1).unwrap().str(&table), "r");
    assert_eq!(world.slice(&table, 5..0).unwrap().str(&table), "");
    assert!(world.slice(&table, 1..5).is_none());
    assert!(world.slice(&table, 0..6).is_none());
    assert!(world.slice(&table, 6..0).is_none());
    assert!(world.slice(&table, usize::MAX..1).is_none());
    assert!(world.slice(&table, 1..usize::MAX).is_none());
    assert!(world.slice(&table, usize::MAX..usize::MAX).is_none());

    let orl = world.slice(&table, 1..3).unwrap();
    assert_eq!(orl.slice(&table, 1..1).unwrap().str(&table), "r");
    assert!(orl.slice(&table, 1..3).is_none());
}

#[test]
fn slice_of_a_slice_respects_characters() {
    let mut table = SymbolTable::new();
    let root = table.get("xx héllo");
    let word = root.slice(&table, 3..9).unwrap();
    assert_eq!(word.str(&table), "héllo");
    assert_eq!(word.slice(&table, 1..2).unwrap().str(&table), "é");
    assert!(word.slice(&table, 1..1).is_none());
    assert!(word.slice(&table, 2..1).is_none());
    assert_eq!(word.slice(&table, 3..3).unwrap().str(&table), "llo");
}

#[test]
fn slicing_leaves_the_table_alone() {
    let mut table = SymbolTable::new();
    let symbol = table.get("hello world");
    let hello = symbol.slice(&table, 0..5).unwrap();
    assert!(hello.eq_str(&table, "hello"));
    assert_eq!(table.len(), 1);
    assert!(!table.has("hello"));
    assert_eq!(table.iter(), vec!["hello world"]);
}

#[test]
fn equal_slices_of_one_entry() {
    let mut table = SymbolTable::new();
    let symbol = table.get("aa");
    let left = symbol.slice(&table, 0..1).unwrap();
    let right = symbol.slice(&table, 1..2).unwrap();
    let both = symbol.slice(&table, 0..2).unwrap();
    assert!(left.eq(&right, &table));
    assert!(left.eq(&left, &table));
    assert!(!left.eq(&both, &table));
    assert!(both.eq(&symbol, &table));
    assert!(symbol.eq(&both, &table));
}

#[test]
fn equality_across_entries() {
    let mut table = SymbolTable::new();
    let one = table.get("hello world 1");
    let two = table.get("hello world 2");
    let hello = table.get("hello");
    assert!(!one.eq(&two, &table));
    assert!(!one.eq(&hello, &table));
    let left = one.slice(&table, 0..5).unwrap();
    let right = two.slice(&table, 0..5).unwrap();
    assert!(left.eq(&right, &table));
    assert!(left.eq(&hello, &table));
    assert!(hello.eq(&right, &table));
    let tail_one = one.slice(&table, 12..13).unwrap();
    let tail_two = two.slice(&table, 12..13).unwrap();
    assert!(!tail_one.eq(&tail_two, &table));
    assert!(!tail_one.eq(&hello, &table));
}

#[test]
fn comparison_with_raw_strings() {
    let mut table = SymbolTable::new();
    let symbol = table.get("hello world");
    assert!(symbol.eq_str(&table, "hello world"));
    assert!(!symbol.eq_str(&table, "hello"));
    assert!(!symbol.eq_str(&table, "hello world "));
    assert!(!symbol.eq_str(&table, "hello World"));
    let owned = String::from("hello world");
    assert!(symbol.eq_str(&table, &owned));
    let empty = symbol.slice(&table, 3..3).unwrap();
    assert!(empty.eq_str(&table, ""));
    assert!(!empty.eq_str(&table, " "));
}

#[test]
fn deslice_interns_the_text_of_a_slice() {
    let mut table = SymbolTable::new();
    let root = table.get("hello world");
    let hello = root.slice(&table, 0..5).unwrap();
    assert!(!table.has("hello"));
    assert_eq!(table.len(), 1);
    let whole = hello.deslice(&mut table);
    assert!(table.has("hello"));
    assert_eq!(table.len(), 2);
    assert_eq!(whole.str(&table), "hello");
    assert!(whole.eq(&hello, &table));
    assert_eq!(table.iter(), vec!["hello world", "hello"]);
    let found = table.maybe_get("hello").unwrap();
    assert!(found.eq(&whole, &table));
    assert_eq!(whole.slice(&table, 1..3).unwrap().str(&table), "el");
}

#[test]
fn deslice_finds_text_already_interned() {
    let mut table = SymbolTable::new();
    let hello = table.get("hello");
    let root = table.get("hello world");
    let slice = root.slice(&table, 0..5).unwrap();
    let whole = slice.deslice(&mut table);
    assert_eq!(table.len(), 2);
    assert!(whole.eq(&hello, &table));
    assert_eq!(whole.slice(&table, 0..5).unwrap().str(&table), "hello");
    assert!(whole.slice(&table, 0..6).is_none());
}

#[test]
fn deslice_of_a_whole_entry_changes_nothing() {
    let mut table = SymbolTable::new();
    let hello = table.get("hello");
    table.get("world");
    let same = hello.deslice(&mut table);
    assert_eq!(table.len(), 2);
    assert!(same.eq(&hello, &table));
    assert_eq!(same.str(&table), "hello");
    let again = same.deslice(&mut table);
    assert_eq!(table.len(), 2);
    assert!(again.eq(&hello, &table));
    assert_eq!(table.iter(), vec!["hello", "world"]);
}

#[test]
fn deslice_twice_adds_once() {
    let mut table = SymbolTable::new();
    let root = table.get("hello world");
    let world = root.slice(&table, 6..11).unwrap();
    let first = world.deslice(&mut table);
    let second = world.deslice(&mut table);
    let third = first.deslice(&mut table);
    assert_eq!(table.len(), 2);
    assert!(first.eq(&second, &table));
    assert!(first.eq(&third, &table));
    assert_eq!(table.str(1), "world");
}

#[test]
fn debug_form_quotes_and_escapes() {
    let mut table = SymbolTable::new();
    let plain = table.get("hello");
    assert_eq!(plain.to_debug_string(&table), "\"hello\"");
    let quoted = table.get("say \"hi\"\n");
    assert_eq!(quoted.to_debug_string(&table), "\"say \\\"hi\\\"\\n\"");
    assert_eq!(quoted.to_string(&table), "say \"hi\"\n");
    let slice = plain.slice(&table, 1..3).unwrap();
    assert_eq!(slice.to_debug_string(&table), "\"el\"");
    assert_eq!(slice.to_string(&table), "el");
}

#[test]
fn belongs_to_tells_foreign_symbols() {
    let mut small = SymbolTable::new();
    let mut large = SymbolTable::new();
    small.get("ab");
    large.get("first");
    let second = large.get("second string");
    let piece = second.slice(&large, 3..10).unwrap();
    let first_piece = large.maybe_get("first").unwrap().slice(&large, 1..4).unwrap();
    assert!(second.belongs_to(&large));
    assert!(piece.belongs_to(&large));
    assert!(!second.belongs_to(&small));
    assert!(!piece.belongs_to(&small));
    assert!(!first_piece.belongs_to(&small));
    let empty = SymbolTable::new();
    assert!(!second.belongs_to(&empty));
}

#[test]
fn symbols_are_plain_copies() {
    let mut table = SymbolTable::new();
    let symbol: Symbol = table.get("hello");
    let copy = symbol;
    let clone = symbol.clone();
    assert!(symbol.eq(&copy, &table));
    assert!(symbol.eq(&clone, &table));
    assert_eq!(copy.str(&table), "hello");
}

#[test]
fn substring_takes_byte_ranges() {
    assert_eq!(substring("hello world", 0, 5), Some("hello"));
    assert_eq!(substring("hello world", 6, 11), Some("world"));
    assert_eq!(substring("hello world", 11, 11), Some(""));
    assert_eq!(substring("hello world", 12, 16), None);
    assert_eq!(substring("hello world", 5, 3), None);
    assert_eq!(substring("", 0, 0), Some(""));
    assert_eq!(substring("", 0, 1), None);
    assert_eq!(substring("héllo", 1, 3), Some("é"));
    assert_eq!(substring("héllo", 1, 2), None);
    assert_eq!(substring("héllo", 2, 3), None);
    assert_eq!(substring("héllo", usize::MAX, usize::MAX), None);
}

#[test]
fn same_text_compares_every_byte() {
    assert!(same_text("", ""));
    assert!(same_text("hello", "hello"));
    assert!(!same_text("hello", "hellp"));
    assert!(!same_text("hello", "jello"));
    assert!(!same_text("hello", "hell"));
    assert!(!same_text("", "a"));
    assert!(same_text("日本語", "日本語"));
    assert!(!same_text("日本語", "日本誤"));
}
