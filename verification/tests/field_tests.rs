use data_syncer::columns::{add_class_field, add_def_field, get_value_string_for_type};
use data_syncer::datetime::get_datetime;
use data_syncer::fields::{
    add_global_enum, add_global_field, add_global_header, add_global_list, get_field_strings,
    SheetError,
};
use data_syncer::model::{Cell, CellKind, DefData, DefField, DefType, FieldType, Sheet};

fn t(s: &str) -> Cell {
    Cell::new(CellKind::Text, s.to_string(), None)
}

fn n(s: &str) -> Cell {
    Cell::new(CellKind::Other, s.to_string(), None)
}

fn e() -> Cell {
    Cell::empty()
}

fn entries(d: &DefData) -> Vec<(String, u32, String)> {
    d.field_data.iter().map(|(k, v)| (k.clone(), v.col, v.data.clone())).collect()
}

#[test]
fn field_strings_for_plain_types() {
    let r = get_field_strings(&t("int"), &t("Max Hp"), &n("100"), false).unwrap();
    assert_eq!(r, ("int".to_string(), "MaxHp".to_string(), "100".to_string()));
    let r = get_field_strings(&t(" Float "), &t("speed"), &n("2.5"), false).unwrap();
    assert_eq!(r, ("float".to_string(), "speed".to_string(), "2.5f".to_string()));
    let r = get_field_strings(&t("Bool"), &t("on"), &n("1"), false).unwrap();
    assert_eq!(r.2, "true");
    let r = get_field_strings(&t("bool"), &t("on"), &n("0"), false).unwrap();
    assert_eq!(r.2, "false");
    let r = get_field_strings(&t("mystery"), &t("x"), &n("3"), false).unwrap();
    assert_eq!(r, ("none".to_string(), "x".to_string(), "3".to_string()));
}

#[test]
fn field_strings_for_strings_and_enums() {
    let r = get_field_strings(&t("string"), &t("title"), &t("Say \"hi\""), false).unwrap();
    assert_eq!(r.2, "\"Say \\\"hi\\\"\"");
    let r = get_field_strings(&t("enum:Color"), &t("tint"), &t("Red"), false).unwrap();
    assert_eq!(r, ("Color".to_string(), "tint".to_string(), "Color.Red".to_string()));
}

#[test]
fn field_strings_errors() {
    assert_eq!(
        get_field_strings(&t("string"), &t("title"), &n("12"), false),
        Err(SheetError::NotText)
    );
    assert_eq!(
        get_field_strings(&t("aaaaéenum:X"), &t("a"), &t("b"), false),
        Err(SheetError::BadTypeName)
    );
}

#[test]
fn field_strings_for_vectors() {
    let r = get_field_strings(&t("vec2"), &t("pos"), &t("1|2"), false).unwrap();
    assert_eq!(r, ("Vector2".to_string(), "pos".to_string(), "new Vector2(1f, 2f)".to_string()));
    let r = get_field_strings(&t("Vec3"), &t("pos"), &t("1|2"), false).unwrap();
    assert_eq!(r.2, "new Vector3(0f, 0f, 0f)");
    let r = get_field_strings(&t("vec3"), &t("pos"), &t("1|2|3"), true).unwrap();
    assert_eq!(r.2, "\n        new Vector3(1f, 2f, 3f)");
    let r = get_field_strings(&t("vec4"), &t("c"), &t("1|0|0|1"), false).unwrap();
    assert_eq!(r.2, "new Vector4(1f, 0f, 0f, 1f)");
}

#[test]
fn field_strings_for_dates() {
    let no_date = get_field_strings(&t("datetime"), &t("when"), &t("soon"), false).unwrap();
    assert_eq!(no_date, ("DateTime".to_string(), "when".to_string(), "new DateTime()".to_string()));
    let epoch = Cell::new(CellKind::Other, "25569".to_string(), Some(0));
    let r = get_field_strings(&t("DateTime"), &t("when"), &epoch, false).unwrap();
    assert_eq!(
        r.2,
        "new DateTime(year:1970, month:1, day:1, hour:0, minute:0, second:1, kind:DateTimeKind.Utc); // Thu Jan  1 00:00:01"
    );
    let r = get_field_strings(&t("datetime"), &t("when"), &epoch, true).unwrap();
    assert_eq!(
        r.2,
        "\n        new DateTime(year:1970, month:1, day:1, hour:0, minute:0, second:1, kind:DateTimeKind.Utc), // Thu Jan  1 00:00:01"
    );
}

#[test]
fn get_datetime_reads_the_calendar() {
    let c = Cell::new(CellKind::Other, "x".to_string(), Some(86400 * 365 + 3660));
    let p = get_datetime(&c).unwrap();
    assert_eq!((p.year, p.month, p.day, p.hour, p.minute, p.second), (1971, 1, 1, 1, 1, 1));
    assert_eq!(p.comment, "Fri Jan  1 01:01:01");
    assert!(get_datetime(&t("x")).is_none());
    assert!(get_datetime(&Cell::new(CellKind::Other, "x".to_string(), Some(i64::MAX))).is_none());
    assert!(get_datetime(&Cell::new(CellKind::Other, "x".to_string(), Some(i64::MAX - 1))).is_none());
    let before = get_datetime(&Cell::new(CellKind::Other, "x".to_string(), Some(-2))).unwrap();
    assert_eq!((before.year, before.hour, before.minute, before.second), (1969, 23, 59, 59));
}

#[test]
fn global_field_rows() {
    let sheet = Sheet {
        rows: vec![
            vec![t("CONST"), t("int"), t("MaxLevel"), n("10")],
            vec![t("VAR"), e(), t("x"), n("1")],
            vec![t("VAR"), t("string"), t("Greeting"), t("hi")],
        ],
    };
    let mut g: Vec<String> = vec![];
    add_global_field(&mut g, &sheet, (0, 0), "const").unwrap();
    add_global_field(&mut g, &sheet, (1, 0), "static").unwrap();
    add_global_field(&mut g, &sheet, (2, 0), "static").unwrap();
    add_global_field(&mut g, &sheet, (2, 0), "").unwrap();
    assert_eq!(
        g,
        vec![
            "public const int MaxLevel = 10;",
            "public static string Greeting = \"hi\";",
            "public string Greeting = \"hi\";",
        ]
    );
}

#[test]
fn global_field_missing_cells() {
    let sheet = Sheet { rows: vec![vec![t("CONST"), t("int"), t("MaxLevel")]] };
    let mut g: Vec<String> = vec![];
    assert_eq!(add_global_field(&mut g, &sheet, (0, 0), "const"), Err(SheetError::MissingCell));
    assert!(g.is_empty());
    let narrow = Sheet { rows: vec![vec![t("CONST")]] };
    assert_eq!(add_global_field(&mut g, &narrow, (0, 0), "const"), Err(SheetError::MissingCell));
}

#[test]
fn global_header_row() {
    let mut g: Vec<String> = vec![];
    add_global_header(&mut g, &vec![t("HEADER"), t("Stats"), t("a"), e(), n("7")]);
    assert_eq!(g, vec![" ", "// -- Stats -- a 7"]);
    let mut h: Vec<String> = vec![];
    add_global_header(&mut h, &vec![t("HEADER")]);
    assert_eq!(h, vec![" ", ""]);
}

#[test]
fn global_enum_row() {
    let mut g: Vec<String> = vec![];
    add_global_enum(&mut g, &vec![t("ENUM"), t("Color"), t("Red"), e(), t("Blue")]);
    assert_eq!(g, vec!["public enum Color \n    {\n       Red = 0,\n       Blue = 2    \n    };"]);
}

#[test]
fn global_list_rows() {
    let mut g: Vec<String> = vec![];
    add_global_list(&mut g, &vec![t("LIST"), t("float"), t("Speeds"), n("1"), n("2.5")]).unwrap();
    add_global_list(&mut g, &vec![t("LIST"), t("string"), t("Names"), t("a"), e(), t("b")]).unwrap();
    add_global_list(&mut g, &vec![t("LIST"), t("int"), t("Ids"), n("3")]).unwrap();
    add_global_list(&mut g, &vec![t("LIST"), t("vec2"), t("Points"), t("1|2"), t("3|4")]).unwrap();
    assert_eq!(
        g,
        vec![
            "public static List<float> Speeds = new List<float>() { 1f, 2.5f };",
            "public static List<string> Names = new List<string>() { \"a\", \"b\" };",
            "public static List<int> Ids = new List<int>() { 3 };",
            "public static List<Vector2> Points = new List<Vector2>() { \n        new Vector2(1f, 2f), \n        new Vector2(3f, 4f) \n    };",
        ]
    );
}

#[test]
fn class_field_columns() {
    let sheet = Sheet {
        rows: vec![
            vec![t("string"), t("int"), t("list:int"), t("list:Color"), t("list:int"), t("Stats:hp"), t("Stats:mp"), n("3")],
            vec![t("ItemId"), t("Cost"), t("Tags"), t("Colors"), t("Tags"), t("Hp:int"), t("Mp:int"), t("x")],
        ],
    };
    let mut d = DefType::new("Item".to_string());
    for col in 0..7u32 {
        let text = sheet.rows[0][col as usize].text.clone();
        add_class_field(&mut d, &sheet, (0, col), &text).unwrap();
    }
    assert_eq!(d.enum_name, "ItemId");
    assert!(!d.enum_use_id_prefix);
    let decl: Vec<&str> = d.fields.iter().map(|f| f.declaration.as_str()).collect();
    assert_eq!(
        decl,
        vec![
            "public string ItemId;",
            "public int Cost;",
            "public List<int> Tags;",
            "public List<Color> Colors;",
            "public List<int> Tags;",
            "public Stats hp;",
            "public Stats mp;",
        ]
    );
    assert_eq!(d.fields[2].field_type, FieldType::LIST);
    assert_eq!(d.fields[3].field_type, FieldType::ENUMLIST);
    assert!(d.fields[2].is_main_field);
    assert!(!d.fields[4].is_main_field);
    assert_eq!(d.fields[5].field_type, FieldType::CLASS);
    assert_eq!(d.fields[5].class_inner_field_name, "Hp");
    assert_eq!(d.fields[5].class_inner_field_type, "int");
    assert_eq!(d.fields[5].field_type_name, "Stats");
}

#[test]
fn class_field_id_prefix_kept_for_int_ids() {
    let sheet = Sheet { rows: vec![vec![t("int")], vec![t("Kind")]] };
    let mut d = DefType::new("Thing".to_string());
    add_class_field(&mut d, &sheet, (0, 0), &"int".to_string()).unwrap();
    assert!(d.enum_use_id_prefix);
    assert_eq!(d.enum_name, "Kind");
    let mut d2 = DefType::new("Thing".to_string());
    assert_eq!(
        add_class_field(&mut d2, &sheet, (1, 0), &"int".to_string()),
        Err(SheetError::MissingCell)
    );
}

#[test]
fn class_field_name_cell_not_text() {
    let sheet = Sheet { rows: vec![vec![t("x"), t("int")], vec![t("a"), n("5")]] };
    let mut d = DefType::new("Thing".to_string());
    add_class_field(&mut d, &sheet, (0, 1), &"int".to_string()).unwrap();
    assert_eq!(d.fields[0].field_name, "NONE");
    assert_eq!(d.fields[0].declaration, "public int NONE;");
    assert_eq!(d.fields[0].field_type, FieldType::INT);
}

#[test]
fn class_field_without_colon_in_name() {
    let sheet = Sheet { rows: vec![vec![t("a"), t("Stats:hp")], vec![t("a"), t("xint")]] };
    let mut d = DefType::new("Thing".to_string());
    add_class_field(&mut d, &sheet, (0, 1), &"Stats:hp".to_string()).unwrap();
    assert_eq!(d.fields[0].class_inner_field_type, "int");
    assert_eq!(d.fields[0].class_inner_field_name, "");
    let bad = Sheet { rows: vec![vec![t("a"), t("Stats:hp")], vec![t("a"), t("")]] };
    let mut d2 = DefType::new("Thing".to_string());
    assert_eq!(
        add_class_field(&mut d2, &bad, (0, 1), &"Stats:hp".to_string()),
        Err(SheetError::BadTypeName)
    );
}

fn field(ft: FieldType, kind_name: &str, name: &str) -> DefField {
    DefField::new(true, String::new(), ft, kind_name.to_string(), name.to_string(), String::new(), String::new())
}

#[test]
fn def_field_values() {
    let mut d = DefData::new();
    add_def_field(&mut d, &n("5"), (0, 1), &field(FieldType::INT, "int", "Cost"));
    add_def_field(&mut d, &n("1.5"), (0, 2), &field(FieldType::FLOAT, "float", "Weight"));
    add_def_field(&mut d, &t("1|2"), (0, 3), &field(FieldType::VEC2, "Vector2", "Pos"));
    add_def_field(&mut d, &t("1"), (0, 4), &field(FieldType::VEC3, "Vector3", "Dir"));
    add_def_field(&mut d, &n("true"), (0, 5), &field(FieldType::BOOL, "bool", "On"));
    add_def_field(&mut d, &t("Big sword"), (0, 6), &field(FieldType::STRING, "string", "Title"));
    add_def_field(&mut d, &t("Red"), (0, 7), &field(FieldType::ENUM, "Color", "Tint"));
    add_def_field(&mut d, &t("x"), (0, 8), &field(FieldType::NONE, "", "Skip"));
    add_def_field(&mut d, &t("soon"), (0, 9), &field(FieldType::DATETIME, "DateTime", "When"));
    add_def_field(
        &mut d,
        &Cell::new(CellKind::Other, "25569".to_string(), Some(0)),
        (0, 10),
        &field(FieldType::DATETIME, "DateTime", "Born"),
    );
    assert_eq!(
        entries(&d),
        vec![
            ("Cost".to_string(), 1, "Cost = 5,".to_string()),
            ("Weight".to_string(), 2, "Weight = 1.5f,".to_string()),
            ("Pos".to_string(), 3, "Pos = new Vector2(1f, 2f),".to_string()),
            ("Dir".to_string(), 4, "Dir = new Vector3(0f, 0f, 0f),".to_string()),
            ("On".to_string(), 5, "On = true,".to_string()),
            ("Title".to_string(), 6, "Title = \"Big sword\",".to_string()),
            ("Tint".to_string(), 7, "Tint = Color.Red,".to_string()),
            (
                "Born".to_string(),
                10,
                "Born = new DateTime(year:1970, month:1, day:1, hour:0, minute:0, second:1, kind:DateTimeKind.Utc), // Thu Jan  1 00:00:01".to_string()
            ),
        ]
    );
}

#[test]
fn def_field_lists_grow_across_columns() {
    let mut d = DefData::new();
    let main = field(FieldType::LIST, "float", "Speeds");
    let mut more = field(FieldType::LIST, "float", "Speeds");
    more.is_main_field = false;
    add_def_field(&mut d, &n("1"), (0, 1), &main);
    add_def_field(&mut d, &n("2"), (0, 2), &more);
    add_def_field(&mut d, &t(" "), (0, 3), &more);
    assert_eq!(
        entries(&d),
        vec![(
            "Speeds".to_string(),
            1,
            "Speeds = new List<float>()\n            { \n                1f,\n                2f,\n            },".to_string()
        )]
    );
    let mut e2 = DefData::new();
    let colors = field(FieldType::ENUMLIST, "Color", "Colors");
    add_def_field(&mut e2, &t(""), (0, 1), &colors);
    assert_eq!(
        entries(&e2),
        vec![("Colors".to_string(), 1, "Colors = new List<Color>()\n            { \n                \n            },".to_string())]
    );
    let mut e3 = DefData::new();
    add_def_field(&mut e3, &t("Red"), (0, 1), &colors);
    assert_eq!(entries(&e3)[0].2, "Colors = new List<Color>()\n            { \n                Color.Red,\n            },");
}

#[test]
fn def_field_class_members() {
    let mut d = DefData::new();
    let hp = DefField::new(true, String::new(), FieldType::CLASS, "Stats".to_string(), "hp".to_string(), "int".to_string(), "Hp".to_string());
    let mp = DefField::new(false, String::new(), FieldType::CLASS, "Stats".to_string(), "hp".to_string(), "string".to_string(), "Name".to_string());
    add_def_field(&mut d, &n("10"), (0, 1), &hp);
    add_def_field(&mut d, &t("Bob"), (0, 2), &mp);
    assert_eq!(
        entries(&d),
        vec![(
            "hp".to_string(),
            1,
            "hp = new Stats()\n            { \n                Hp = 10, \n                Name = \"Bob\",\n            },".to_string()
        )]
    );
    let mut d2 = DefData::new();
    let only_more = DefField::new(false, String::new(), FieldType::CLASS, "Stats".to_string(), "x".to_string(), "int".to_string(), "A".to_string());
    add_def_field(&mut d2, &n("1"), (0, 1), &only_more);
    assert!(d2.field_data.is_empty());
    let mut d3 = DefData::new();
    add_def_field(&mut d3, &n("10"), (0, 1), &hp);
    let more = DefField::new(false, String::new(), FieldType::CLASS, "Stats".to_string(), "hp".to_string(), "int".to_string(), "Mp".to_string());
    add_def_field(&mut d3, &n("4"), (0, 2), &more);
    assert_eq!(entries(&d3)[0].2, "hp = new Stats()\n            { \n                Hp = 10, \n                Mp = 4,\n            },");
}

#[test]
fn value_string_for_type() {
    assert_eq!(get_value_string_for_type(&"float".to_string(), &n("2")), "2f");
    assert_eq!(get_value_string_for_type(&"string".to_string(), &t("a")), "\"a\"");
    assert_eq!(get_value_string_for_type(&"int".to_string(), &n("2")), "2");
}

#[test]
fn def_field_changes_only_its_own_entry() {
    let mut d = DefData::new();
    add_def_field(&mut d, &n("5"), (0, 1), &field(FieldType::INT, "int", "Cost"));
    add_def_field(&mut d, &n("2"), (0, 2), &field(FieldType::INT, "int", "Weight"));
    add_def_field(&mut d, &n("9"), (0, 3), &field(FieldType::INT, "int", "Cost"));
    assert_eq!(
        entries(&d),
        vec![
            ("Cost".to_string(), 1, "Cost = 9,".to_string()),
            ("Weight".to_string(), 2, "Weight = 2,".to_string()),
        ]
    );
}
