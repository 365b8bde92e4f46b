use tile_maze::codec::{deserialize, load_levels, serialize};
use tile_maze::enumerable::Enumerable;
use tile_maze::level::{Field, LevelError, LevelTemplate};
use tile_maze::lexer::tokenize;
use tile_maze::parser::read_level;
use tile_maze::printer::render_tokens;
use tile_maze::text::{chars_of, string_of, word_is};
use tile_maze::tile::{Connections, TileVariant};
use tile_maze::token::Token;

fn level(name: &str, width: u32, height: u32, tiles: Vec<TileVariant>) -> LevelTemplate {
    LevelTemplate::new(String::from(name), width, height, tiles).unwrap()
}

#[test]
fn two_tile_level_round_trips() {
    let tiles = vec![TileVariant::Start, TileVariant::Goal { active: false }];
    let written = level("two", 2, 1, tiles.clone());
    let text = serialize(&written);
    assert_eq!(
        text,
        "LevelTemplate(name:\"two\",width:2,height:1,tiles:[Start,Goal(active:false)])"
    );
    let back = deserialize(&text).unwrap();
    assert_eq!(back.name(), "two");
    assert_eq!(back.width(), 2);
    assert_eq!(back.height(), 1);
    assert_eq!(back.tiles(), &tiles);
    assert_eq!(back, written);
}

#[test]
fn wall_is_written_with_its_four_flags() {
    let c = Connections { up: true, down: false, left: false, right: true };
    let written = level("w", 1, 1, vec![TileVariant::Wall(c)]);
    assert_eq!(
        serialize(&written),
        "LevelTemplate(name:\"w\",width:1,height:1,tiles:[Wall(up:true,down:false,left:false,right:true)])"
    );
}

#[test]
fn every_tile_round_trips() {
    let tiles = TileVariant::enumerate_all();
    let written = level("all tiles", 4, 5, tiles);
    assert_eq!(deserialize(&serialize(&written)), Ok(written));
}

#[test]
fn empty_level_round_trips() {
    let written = level("", 0, 0, Vec::new());
    let text = serialize(&written);
    assert_eq!(text, "LevelTemplate(name:\"\",width:0,height:0,tiles:[])");
    assert_eq!(deserialize(&text), Ok(written));
}

#[test]
fn large_sizes_round_trip() {
    let written = level("wide", 4294967295, 0, Vec::new());
    let text = serialize(&written);
    assert_eq!(text, "LevelTemplate(name:\"wide\",width:4294967295,height:0,tiles:[])");
    assert_eq!(deserialize(&text), Ok(written));
    let ten = level("ten", 10, 0, Vec::new());
    assert_eq!(serialize(&ten), "LevelTemplate(name:\"ten\",width:10,height:0,tiles:[])");
}

#[test]
fn names_with_quotes_and_backslashes_round_trip() {
    let name = "a \"quoted\" \\ name\nwith, (marks): [é] ünïcödé";
    let written = level(name, 1, 1, vec![TileVariant::Path]);
    let text = serialize(&written);
    assert_eq!(
        text,
        "LevelTemplate(name:\"a \\\"quoted\\\" \\\\ name\nwith, (marks): [é] ünïcödé\",width:1,height:1,tiles:[Path])"
    );
    let back = deserialize(&text).unwrap();
    assert_eq!(back.name(), name);
    assert_eq!(back, written);
}

#[test]
fn white_space_order_and_last_commas_are_free() {
    let text = "\n ( tiles : [ Start , Goal ( active : true , ) , ] ,\r\n\theight: 1, name: \"n\", width: 2, )\n";
    let back = deserialize(text).unwrap();
    assert_eq!(
        back,
        level("n", 2, 1, vec![TileVariant::Start, TileVariant::Goal { active: true }])
    );
    let wall = "(name:\"n\",width:1,height:1,tiles:[Wall(up:false,down:true,left:false,right:true,)])";
    let c = Connections { up: false, down: true, left: false, right: true };
    assert_eq!(deserialize(wall), Ok(level("n", 1, 1, vec![TileVariant::Wall(c)])));
}

#[test]
fn leading_zeros_are_read() {
    let text = "(name:\"z\",width:007,height:0,tiles:[])";
    assert_eq!(deserialize(text), Ok(level("z", 7, 0, Vec::new())));
}

#[test]
fn malformed_text_is_a_syntax_error() {
    let cases = [
        "",
        "   ",
        "LevelTemplate",
        "LevelTemplate(",
        "Other(name:\"a\",width:0,height:0,tiles:[])",
        "LevelTemplate(name:\"a\",width:0,height:0,tiles:[]",
        "LevelTemplate(name:\"a\",width:0,height:0,tiles:[]) extra",
        "LevelTemplate(name:\"a\",width:0,height:0,tiles:[]))",
        "LevelTemplate(name:\"a\" width:0,height:0,tiles:[])",
        "LevelTemplate(name:\"a\",,width:0,height:0,tiles:[])",
        "LevelTemplate(,name:\"a\",width:0,height:0,tiles:[])",
        "LevelTemplate(name:a,width:0,height:0,tiles:[])",
        "LevelTemplate(name:\"a\",width:\"0\",height:0,tiles:[])",
        "LevelTemplate(name:\"a\",width:-1,height:0,tiles:[])",
        "LevelTemplate(name:\"a\",width:0,height:0,tiles:Start)",
        "LevelTemplate(name:\"a\",width:1,height:1,tiles:[Start Path])",
        "LevelTemplate(name:\"a\",width:1,height:1,tiles:[Start,,Path])",
        "LevelTemplate(name:\"a\",width:1,height:1,tiles:[,])",
        "LevelTemplate(name:\"a\",width:1,height:1,tiles:[Goal])",
        "LevelTemplate(name:\"a\",width:1,height:1,tiles:[Goal(active:yes)])",
        "LevelTemplate(name:\"a\",width:1,height:1,tiles:[Goal(on:true)])",
        "LevelTemplate(name:\"a\",width:1,height:1,tiles:[Goal(active:true,,)])",
        "LevelTemplate(name:\"a\",width:1,height:1,tiles:[Wall(up:true,down:true,left:true)])",
        "LevelTemplate(name:\"a\",width:1,height:1,tiles:[Wall(down:true,up:true,left:true,right:true)])",
        "LevelTemplate(name:\"a\",width:1,height:1,tiles:[7])",
        "LevelTemplate(name:\"a\",width:0,height:0,tiles:[],colour:1)",
        "LevelTemplate(name:\"a\",name:\"b\",width:0,height:0,tiles:[])",
        "LevelTemplate(name:\"a\",width:0,width:0,height:0,tiles:[])",
        "LevelTemplate(name:\"a\",width:0,height:0,tiles:[],tiles:[])",
        "LevelTemplate(name:\"unclosed,width:0,height:0,tiles:[])",
        "LevelTemplate(name:\"bad \\n escape\",width:0,height:0,tiles:[])",
        "LevelTemplate(name:\"a\",width:4294967296,height:0,tiles:[])",
        "LevelTemplate(name:\"a\",width:99999999999999999999999999,height:0,tiles:[])",
        "LevelTemplate(name:\"a\",width:0,height:0,tiles:[]);",
        "LevelTemplate{name:\"a\",width:0,height:0,tiles:[]}",
        "LevelTemplate(name=\"a\",width:0,height:0,tiles:[])",
        "LevelTemplate(name:\"a\",width:1x,height:0,tiles:[])",
    ];
    for text in cases.iter() {
        assert_eq!(deserialize(text), Err(LevelError::Syntax), "{}", text);
    }
}

#[test]
fn missing_field_is_named() {
    assert_eq!(
        deserialize("LevelTemplate(width:0,height:0,tiles:[])"),
        Err(LevelError::MissingField(Field::Name))
    );
    assert_eq!(
        deserialize("LevelTemplate(name:\"a\",height:0,tiles:[])"),
        Err(LevelError::MissingField(Field::Width))
    );
    assert_eq!(
        deserialize("LevelTemplate(name:\"a\",width:0,tiles:[])"),
        Err(LevelError::MissingField(Field::Height))
    );
    assert_eq!(
        deserialize("LevelTemplate(name:\"a\",width:0,height:0)"),
        Err(LevelError::MissingField(Field::Tiles))
    );
    assert_eq!(deserialize("()"), Err(LevelError::MissingField(Field::Name)));
    assert_eq!(
        deserialize("(tiles:[Start],height:3)"),
        Err(LevelError::MissingField(Field::Name))
    );
}

#[test]
fn wrong_tile_count_is_a_dimension_mismatch() {
    assert_eq!(
        deserialize("LevelTemplate(name:\"a\",width:2,height:2,tiles:[Start,Path,Path])"),
        Err(LevelError::DimensionMismatch)
    );
    assert_eq!(
        deserialize("LevelTemplate(name:\"a\",width:0,height:0,tiles:[Start])"),
        Err(LevelError::DimensionMismatch)
    );
    assert_eq!(
        deserialize("LevelTemplate(name:\"a\",width:4294967295,height:4294967295,tiles:[])"),
        Err(LevelError::DimensionMismatch)
    );
}

#[test]
fn unknown_tile_name_is_reported() {
    assert_eq!(
        deserialize("LevelTemplate(name:\"a\",width:1,height:1,tiles:[Lava])"),
        Err(LevelError::UnknownTile)
    );
    assert_eq!(
        deserialize("LevelTemplate(name:\"a\",width:2,height:1,tiles:[Start,start])"),
        Err(LevelError::UnknownTile)
    );
    assert_eq!(
        deserialize("LevelTemplate(tiles:[Door(open:true)])"),
        Err(LevelError::UnknownTile)
    );
}

#[test]
fn first_error_in_reading_order_is_reported() {
    assert_eq!(
        deserialize("LevelTemplate(width:1,tiles:[Lava],height:?)"),
        Err(LevelError::Syntax)
    );
    assert_eq!(
        deserialize("LevelTemplate(width:1,tiles:[Lava],height)"),
        Err(LevelError::UnknownTile)
    );
}

#[test]
fn batch_keeps_the_levels_that_parse() {
    let first = level("first", 1, 1, vec![TileVariant::Start]);
    let second = level("second", 2, 1, vec![TileVariant::Path, TileVariant::Goal { active: true }]);
    let texts = vec![
        String::from("not a level"),
        serialize(&first),
        String::from("LevelTemplate(name:\"a\",width:2,height:2,tiles:[Start])"),
        String::new(),
        serialize(&second),
        String::from("LevelTemplate(name:\"a\",width:1,height:1,tiles:[Lava])"),
    ];
    let levels = load_levels(&texts);
    assert_eq!(levels.len(), 2);
    assert_eq!(levels[0], first);
    assert_eq!(levels[1], second);
    assert_eq!(load_levels(&Vec::new()).len(), 0);
    assert_eq!(load_levels(&vec![String::from("("), String::from(")")]).len(), 0);
}

#[test]
fn tokens_of_a_small_text() {
    let chars = chars_of("ab_1 ( \"x\\\"y\" : 42 ,[])");
    let toks = tokenize(&chars).unwrap();
    let shown: Vec<String> = toks.iter().map(|t| format!("{:?}", t)).collect();
    assert_eq!(
        shown,
        vec![
            "Word(['a', 'b', '_', '1'])",
            "Open",
            "Text(['x', '\"', 'y'])",
            "Colon",
            "Number(42)",
            "Comma",
            "ListOpen",
            "ListClose",
            "Close",
        ]
    );
    assert_eq!(string_of(&render_tokens(&toks)), "ab_1(\"x\\\"y\":42,[])");
    assert!(tokenize(&chars_of("a ; b")).is_none());
    assert!(tokenize(&chars_of("\"open")).is_none());
    assert!(tokenize(&chars_of("\"a\\")).is_none());
    assert_eq!(tokenize(&chars_of("")).unwrap().len(), 0);
}

#[test]
fn number_next_to_word_is_two_tokens() {
    let toks = tokenize(&chars_of("12ab")).unwrap();
    assert_eq!(toks.len(), 2);
    assert!(matches!(toks[0], Token::Number(12)));
    assert!(matches!(&toks[1], Token::Word(w) if w == &vec!['a', 'b']));
}

#[test]
fn fields_are_read_from_tokens() {
    let toks = tokenize(&chars_of("(width:3,name:\"n\")")).unwrap();
    let fields = read_level(&toks).unwrap();
    assert_eq!(fields.width, Some(3));
    assert_eq!(fields.name, Some(vec!['n']));
    assert_eq!(fields.height, None);
    assert_eq!(fields.tiles, None);
    let bad = tokenize(&chars_of("(width:3")).unwrap();
    assert!(matches!(read_level(&bad), Err(LevelError::Syntax)));
}

#[test]
fn strings_and_characters_convert_both_ways() {
    assert_eq!(chars_of("héllo"), vec!['h', 'é', 'l', 'l', 'o']);
    assert_eq!(string_of(&vec!['h', 'é', 'l', 'l', 'o']), "héllo");
    assert_eq!(string_of(&Vec::new()), "");
    assert!(word_is(&vec!['G', 'o', 'a', 'l'], "Goal"));
    assert!(!word_is(&vec!['G', 'o', 'a', 'l'], "Goat"));
    assert!(!word_is(&vec!['G', 'o', 'a'], "Goal"));
}

#[test]
fn batch_report_names_the_texts_that_failed() {
    let good = level("good", 1, 1, vec![TileVariant::Start]);
    let texts = vec![
        String::from("?"),
        serialize(&good),
        String::from("(name:\"a\",width:2,height:2,tiles:[Start])"),
        String::from("(name:\"a\",width:1,height:1,tiles:[Lava])"),
        String::from("(name:\"a\",width:1,height:1)"),
    ];
    let report = tile_maze::codec::load_report(&texts);
    assert_eq!(report.levels, vec![good]);
    assert_eq!(
        report.rejected,
        vec![
            (0, LevelError::Syntax),
            (2, LevelError::DimensionMismatch),
            (3, LevelError::UnknownTile),
            (4, LevelError::MissingField(Field::Tiles)),
        ]
    );
}

#[test]
fn what_was_read_can_be_written_and_read_again() {
    let messy = " ( height : 1 , tiles : [ Path , Wall ( up : true , down : true , left : false , right : false ) , ] , width : 2 , name : \"m\\\\\" ) ";
    let first = deserialize(messy).unwrap();
    let text = serialize(&first);
    assert_eq!(
        text,
        "LevelTemplate(name:\"m\\\\\",width:2,height:1,tiles:[Path,Wall(up:true,down:true,left:false,right:false)])"
    );
    assert_eq!(deserialize(&text), Ok(first));
}
