use data_syncer::merge::{merge_blocks, BlockError, BLOCK_SWAP};
use data_syncer::model::{Cell, CellKind, DefData, DefField, DefType, FieldType, Sheet};
use data_syncer::script::{
    generate_script, glob_pattern, is_sync_sheet, row_count_warning, script_file_path,
    should_sync_path, SyncError,
};
use data_syncer::sheet::read_sheet;
use data_syncer::fields::SheetError;
use data_syncer::{
    end_block, get_def_fields_block, get_defs_block, get_enums_block, get_funcs_block,
    get_global_fields_block, get_template, start_block,
};

fn t(s: &str) -> Cell {
    Cell::new(CellKind::Text, s.to_string(), None)
}

fn n(s: &str) -> Cell {
    Cell::new(CellKind::Other, s.to_string(), None)
}

fn e() -> Cell {
    Cell::empty()
}

fn item_sheet() -> Sheet {
    Sheet {
        rows: vec![
            vec![t("**SYNC**"), e(), e(), e()],
            vec![t("CONST"), t("int"), t("MaxLevel"), n("10")],
            vec![t("CLASS"), t("Item"), e(), e()],
            vec![t("string"), t("int"), t("float"), t("list:int")],
            vec![t("ItemId"), t("Cost"), t("Weight"), t("Tags")],
            vec![t("Sword"), n("5"), n("1.5"), n("1")],
            vec![t("Shield"), n("7"), n("3"), e()],
            vec![e(), e(), e(), e()],
            vec![t("Ignored"), n("1"), n("1"), n("1")],
        ],
    }
}

const USINGS: &str = "using System;\nusing System.Collections;\nusing System.Collections.Generic;\nusing UnityEngine;";

const ENUMS: &str = "//-ENUM-S-\npublic enum ItemId \n{ \n    NONE = 0,\n    Sword = 1,\n    Shield = 2 \n}\n//-ENUM-E-";

const DEF_FIELDS: &str = "    //-DEF-FIELDS-S-\n    public ItemId Id;\n    public int Cost;\n    public float Weight;\n    public List<int> Tags;\n    //-DEF-FIELDS-E-";

const GLOBALS: &str = "    //-FIELDS-S-\n    public const int MaxLevel = 10;\n    //-FIELDS-E-";

const DEFS: &str = "    //-DEFS-S-\n    public const int COUNT = 2; // Note: All except the NONE\n    public static Item[] defs = new Item[]\n    {\n        null, // INDEX [0] / \"NONE\" IN THE ID ENUM\n        \n        new Item() // INDEX [1]\n        {\n            Id = ItemId.Sword,\n            Cost = 5,\n            Weight = 1.5f,\n            Tags = new List<int>()\n            { \n                1,\n            },\n        },\n\n        new Item() // INDEX [2]\n        {\n            Id = ItemId.Shield,\n            Cost = 7,\n            Weight = 3f,\n            Tags = new List<int>()\n            { \n                \n            },\n        },\n    };\n    //-DEFS-E-";

const FUNCS: &str = "    //-FUNCTIONS-S-\n    public static Item GetDef(ItemId id)\n    {\n        Item ret = null;\n        int index = (int)id;\n        if(index > -1 && index < defs.Length)\n        {\n            ret = defs[index];\n        }\n        else\n        {\n            Debug.LogError($\"Item GetDef({index}) not found\");\n        }\n        return ret;\n    }\n    \n    //-FUNCTIONS-E-";

fn expected_template() -> String {
    format!(
        "{}\n\n{}\n\npublic class Item // ** AUTO-GENERATED CLASS FROM EXCEL SHEET, DO NOT EDIT NAME**\n{{\n{}\n}}\n\npublic static class ItemSheet // ** AUTO-GENERATED CLASS FROM EXCEL SHEET, DO NOT EDIT NAME**\n{{\n{}\n\n{}\n\n{}\n}}\n    ",
        USINGS, ENUMS, DEF_FIELDS, GLOBALS, DEFS, FUNCS
    )
}

#[test]
fn test_current_game() {}

#[test]
fn block_markers() {
    assert_eq!(start_block("FIELDS"), "//-FIELDS-S-");
    assert_eq!(end_block("FIELDS"), "//-FIELDS-E-");
    assert_ne!(start_block("DEFS"), end_block("DEFS"));
}

#[test]
fn read_sheet_builds_the_model() {
    let (globals, def_type) = read_sheet(&item_sheet()).unwrap();
    assert_eq!(globals, vec!["public const int MaxLevel = 10;"]);
    assert_eq!(def_type.name, "Item");
    assert_eq!(def_type.enum_name, "ItemId");
    assert!(!def_type.enum_use_id_prefix);
    assert_eq!(def_type.enum_ids, vec!["Sword = 1", "Shield = 2"]);
    assert_eq!(def_type.fields.len(), 4);
    assert_eq!(def_type.data_2.len(), 2);
    assert_eq!(def_type.data_2[0].field_data[0].0, "Sword");
    assert_eq!(def_type.data_2[0].field_data[0].1.data, "    Id = ItemId.Sword,");
}

#[test]
fn blocks_of_the_item_sheet() {
    let (globals, def_type) = read_sheet(&item_sheet()).unwrap();
    assert_eq!(get_enums_block(&def_type), ENUMS);
    assert_eq!(get_def_fields_block(&def_type), DEF_FIELDS);
    assert_eq!(get_global_fields_block(&globals, &def_type), GLOBALS);
    assert_eq!(get_defs_block(&def_type), DEFS);
    assert_eq!(get_funcs_block(&def_type), FUNCS);
    assert_eq!(
        def_type.get_class_string(&String::new()),
        format!("\n{}\n\npublic class Item // ** AUTO-GENERATED CLASS FROM EXCEL SHEET, DO NOT EDIT NAME**\n{{\n{}\n}}", ENUMS, DEF_FIELDS)
    );
}

#[test]
fn template_of_the_item_sheet() {
    let (globals, def_type) = read_sheet(&item_sheet()).unwrap();
    assert_eq!(get_template(true, "ItemSheet", &globals, &def_type), expected_template());
}

#[test]
fn template_without_definitions() {
    let def_type = DefType::new("defClassName".to_string());
    let globals = vec!["public const int A = 1;".to_string()];
    assert_eq!(
        get_template(false, "Consts", &globals, &def_type),
        format!(
            "{}\n\n\npublic  class Consts // ** AUTO-GENERATED CLASS FROM EXCEL SHEET, DO NOT EDIT NAME**\n{{\n    //-FIELDS-S-\n    public const int A = 1;\n    //-FIELDS-E-\n\n \n\n \n}}\n    ",
            USINGS
        )
    );
}

#[test]
fn defs_are_written_in_column_order() {
    let mut def_type = DefType::new("Thing".to_string());
    let mut d = DefData::new();
    d.AddFieldData(&"b".to_string(), 2, "b = 2,".to_string());
    d.AddFieldData(&"a".to_string(), 1, "a = 1,".to_string());
    d.AddFieldData(&"id".to_string(), 0, "    Id = T.X,".to_string());
    def_type.data_2.push(d);
    assert_eq!(
        get_defs_block(&def_type),
        "    //-DEFS-S-\n    public const int COUNT = 1; // Note: All except the NONE\n    public static Thing[] defs = new Thing[]\n    {\n        null, // INDEX [0] / \"NONE\" IN THE ID ENUM\n        \n        new Thing() // INDEX [1]\n        {\n            Id = T.X,\n            a = 1,\n            b = 2,\n        },\n    };\n    //-DEFS-E-"
    );
}

#[test]
fn def_fields_block_skips_id_and_repeated_columns() {
    let mut def_type = DefType::new("Thing".to_string());
    def_type.enum_name = "ThingId".to_string();
    let id = DefField::new(true, "public string Key;".to_string(), FieldType::STRING, "string".to_string(), "Key".to_string(), String::new(), String::new());
    let a = DefField::new(true, "public List<int> L;".to_string(), FieldType::LIST, "int".to_string(), "L".to_string(), String::new(), String::new());
    let b = DefField::new(false, "public List<int> L;".to_string(), FieldType::LIST, "int".to_string(), "L".to_string(), String::new(), String::new());
    def_type.fields = vec![id, a, DefField::empty(), b];
    assert_eq!(
        get_def_fields_block(&def_type),
        "    //-DEF-FIELDS-S-\n    public ThingId Id;\n    public List<int> L;\n    //-DEF-FIELDS-E-"
    );
}

#[test]
fn add_field_data_sets_then_replaces() {
    let mut d = DefData::new();
    d.AddFieldData(&"k".to_string(), 3, "first".to_string());
    d.AddFieldData(&"other".to_string(), 4, "o".to_string());
    d.AddFieldData(&"k".to_string(), 9, "second".to_string());
    assert_eq!(d.field_data.len(), 2);
    assert_eq!(d.field_data[0].0, "k");
    assert_eq!(d.field_data[0].1.col, 3);
    assert_eq!(d.field_data[0].1.data, "second");
    assert_eq!(d.field_data[1].1.data, "o");
    assert_eq!(d.find(&"k".to_string()), Some(0));
    assert_eq!(d.find(&"missing".to_string()), None);
}

#[test]
fn ids_get_the_prefix_for_int_ids() {
    let sheet = Sheet {
        rows: vec![
            vec![t("CLASS"), t("Mob")],
            vec![t("int"), t("int")],
            vec![t("MobId"), t("Hp")],
            vec![n("1 0"), n("50")],
            vec![n("11"), n("60")],
        ],
    };
    let (_, d) = read_sheet(&sheet).unwrap();
    assert_eq!(d.enum_ids, vec!["ID_10 = 1", "ID_11 = 2"]);
    assert_eq!(d.data_2[1].field_data[0].1.data, "    Id = MobId.ID_11,");
    assert_eq!(d.data_2[1].field_data[1].1.data, "Hp = 60,");
}

#[test]
fn read_sheet_reports_layout_errors() {
    let sheet = Sheet { rows: vec![vec![t("CLASS")]] };
    assert_eq!(read_sheet(&sheet).err(), Some(SheetError::MissingCell));
    let sheet = Sheet { rows: vec![vec![t("CLASS"), t("X")], vec![t("int")]] };
    assert_eq!(read_sheet(&sheet).err(), Some(SheetError::MissingCell));
    let sheet = Sheet { rows: vec![vec![t("CLASS"), n("7")]] };
    let (_, d) = read_sheet(&sheet).unwrap();
    assert_eq!(d.name, "NO-CLASS-NAME-SET");
}

#[test]
fn read_sheet_globals() {
    let sheet = Sheet {
        rows: vec![
            vec![t(" HEADER "), t("Tuning"), t("all"), t("values")],
            vec![t("ENUM"), t("Mode"), t("Easy"), t("Hard")],
            vec![t("LIST"), t("int"), t("Xs"), n("1")],
            vec![t("VAR"), t("float"), t("Speed"), n("2")],
            vec![t("OTHER"), t("x"), t("y"), t("z")],
        ],
    };
    let (g, d) = read_sheet(&sheet).unwrap();
    assert_eq!(
        g,
        vec![
            " ",
            "// -- Tuning -- all values",
            "public enum Mode \n    {\n       Easy = 0,\n       Hard = 1    \n    };",
            "public static List<int> Xs = new List<int>() { 1 };",
            "public static float Speed = 2f;",
        ]
    );
    assert_eq!(d.name, "defClassName");
    assert!(d.data_2.is_empty());
}

#[test]
fn merge_keeps_a_generated_script_as_it_is() {
    let template = expected_template();
    let (globals, def_type) = read_sheet(&item_sheet()).unwrap();
    assert_eq!(merge_blocks(&template, &globals, &def_type), Ok(template.clone()));
}

#[test]
fn merge_replaces_only_the_blocks() {
    let (globals, def_type) = read_sheet(&item_sheet()).unwrap();
    let existing = format!(
        "// my header\n{}\nstale\n{}\nclass Keep {{}}\n    {}\n old\n    {}\n{}\nx\n{}\n    {}\n    {}\n    {}\ny\n{}\n// end",
        "//-ENUM-S-",
        "//-ENUM-E-",
        "//-DEF-FIELDS-S-",
        "//-DEF-FIELDS-E-",
        "//-FIELDS-S-",
        "//-FIELDS-E-",
        "//-DEFS-S-",
        "//-DEFS-E-",
        "//-FUNCTIONS-S-",
        "//-FUNCTIONS-E-"
    );
    let merged = merge_blocks(&existing, &globals, &def_type).unwrap();
    let expected = format!(
        "// my header\n{}\nclass Keep {{}}\n{}\n{}\n{}\n{}\n// end",
        ENUMS, DEF_FIELDS, GLOBALS, DEFS, FUNCS
    );
    assert_eq!(merged, expected);
}

#[test]
fn merge_without_markers_fails() {
    let (globals, def_type) = read_sheet(&item_sheet()).unwrap();
    assert_eq!(
        merge_blocks("nothing here", &globals, &def_type),
        Err(BlockError::StartNotFound(BLOCK_SWAP::ENUM_BLOCK))
    );
    assert_eq!(
        merge_blocks("//-ENUM-S-\nno end", &globals, &def_type),
        Err(BlockError::EndNotFound(BLOCK_SWAP::ENUM_BLOCK))
    );
    let empty = DefType::new("defClassName".to_string());
    assert_eq!(
        merge_blocks("//-ENUM-S-\n//-ENUM-E-", &globals, &empty),
        Err(BlockError::StartNotFound(BLOCK_SWAP::FIELD_BLOCK))
    );
    assert_eq!(
        merge_blocks("a\n//-FIELDS-S-\nb\n//-FIELDS-E-\nc", &globals, &empty),
        Ok(format!("a\n{}\nc", GLOBALS))
    );
}

#[test]
fn generate_script_new_and_existing() {
    let sheet = item_sheet();
    let fresh = generate_script(&sheet, "Item Sheet", None).unwrap();
    assert_eq!(fresh, expected_template());
    let again = generate_script(&sheet, "Item Sheet", Some(&fresh)).unwrap();
    assert_eq!(again, fresh);
    assert_eq!(
        generate_script(&sheet, "Item Sheet", Some("plain")),
        Err(SyncError::Block(BlockError::StartNotFound(BLOCK_SWAP::ENUM_BLOCK)))
    );
    let bad = Sheet { rows: vec![vec![t("CLASS")]] };
    assert_eq!(generate_script(&bad, "x", None), Err(SyncError::Sheet(SheetError::MissingCell)));
}

#[test]
fn which_sheets_and_paths_take_part() {
    assert!(is_sync_sheet(&item_sheet()));
    assert!(!is_sync_sheet(&Sheet { rows: vec![vec![n("**SYNC**")]] }));
    assert!(!is_sync_sheet(&Sheet { rows: vec![vec![t("SYNC")]] }));
    assert!(!is_sync_sheet(&Sheet { rows: vec![] }));
    assert_eq!(glob_pattern("Sheets", ".xlsx"), "Sheets/**/*.xlsx");
    assert!(should_sync_path("Sheets/items.xlsx"));
    assert!(!should_sync_path("Sheets/~$items.xlsx"));
    assert_eq!(script_file_path("Output", "Item Sheet"), "Output/ItemSheet.cs");
    assert!(row_count_warning(10001));
    assert!(!row_count_warning(10000));
}

#[test]
fn updating_an_updated_script_again_changes_nothing() {
    let sheet = item_sheet();
    let existing = "// my header\n//-ENUM-S-\nstale\n//-ENUM-E-\nclass Keep {}\n    //-DEF-FIELDS-S-\n old\n    //-DEF-FIELDS-E-\n//-FIELDS-S-\nx\n//-FIELDS-E-\n    //-DEFS-S-\n    //-DEFS-E-\n    //-FUNCTIONS-S-\ny\n//-FUNCTIONS-E-\n// end";
    let once = generate_script(&sheet, "Item Sheet", Some(existing)).unwrap();
    let twice = generate_script(&sheet, "Item Sheet", Some(&once)).unwrap();
    assert_eq!(once, twice);
    assert!(once.starts_with("// my header\n//-ENUM-S-\n"));
    assert!(once.ends_with("//-FUNCTIONS-E-\n// end"));
}

#[test]
fn merge_keeps_the_other_lines_in_order() {
    let (globals, def_type) = read_sheet(&item_sheet()).unwrap();
    let existing = "first\n//-ENUM-S-\n//-ENUM-E-\nsecond\n//-DEF-FIELDS-S-\n//-DEF-FIELDS-E-\nthird\n//-FIELDS-S-\n//-FIELDS-E-\n//-DEFS-S-\n//-DEFS-E-\nfourth\n//-FUNCTIONS-S-\n//-FUNCTIONS-E-\nfifth";
    let merged = merge_blocks(existing, &globals, &def_type).unwrap();
    let kept: Vec<&str> = merged
        .split('\n')
        .filter(|l| ["first", "second", "third", "fourth", "fifth"].contains(l))
        .collect();
    assert_eq!(kept, vec!["first", "second", "third", "fourth", "fifth"]);
}

#[test]
fn rows_after_the_end_row_do_not_matter() {
    let a = item_sheet();
    let mut b = item_sheet();
    b.rows[8] = vec![t("Other"), n("9"), n("9"), n("9")];
    assert_eq!(
        generate_script(&a, "Item Sheet", None),
        generate_script(&b, "Item Sheet", None)
    );
    let fresh = generate_script(&a, "Item Sheet", None).unwrap();
    assert_eq!(
        generate_script(&a, "Item Sheet", Some(&fresh)),
        generate_script(&b, "Item Sheet", Some(&fresh))
    );
}

#[test]
fn defs_block_layout() {
    let (_, def_type) = read_sheet(&item_sheet()).unwrap();
    let block = get_defs_block(&def_type);
    assert!(block.starts_with("    //-DEFS-S-"));
    assert!(block.ends_with("    //-DEFS-E-"));
    assert!(block.contains("COUNT = 2;"));
    let first = block.find("new Item() // INDEX [1]").unwrap();
    let second = block.find("new Item() // INDEX [2]").unwrap();
    assert!(first < second);
    let empty = DefType::new("Thing".to_string());
    let none = get_defs_block(&empty);
    assert!(none.contains("COUNT = 0;"));
    assert!(!none.contains("INDEX [1]"));
}

#[test]
fn rows_after_an_empty_id_below_the_class_do_not_matter() {
    let a = item_sheet();
    let mut b = item_sheet();
    b.rows[8] = vec![t("CLASS"), t("Other"), e(), e()];
    assert_eq!(
        generate_script(&a, "Item Sheet", None),
        generate_script(&b, "Item Sheet", None)
    );
}
