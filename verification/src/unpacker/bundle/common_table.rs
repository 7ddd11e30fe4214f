//! Unity's common string table, whose names type trees refer to by
//! offset, as one text of NUL-terminated names.

use vstd::prelude::*;

use super::serialized::spec_common_string;

verus! {

/// The names of Unity's common string table, by their index in the table.
pub open spec fn common_name(i: u32) -> Seq<char> {
    match i {
        0 => "AABB"@,
        1 => "AnimationClip"@,
        2 => "AnimationCurve"@,
        3 => "AnimationState"@,
        4 => "Array"@,
        5 => "Base"@,
        6 => "BitField"@,
        7 => "bitset"@,
        8 => "bool"@,
        9 => "char"@,
        10 => "ColorRGBA"@,
        11 => "Component"@,
        12 => "data"@,
        13 => "deque"@,
        14 => "double"@,
        15 => "dynamic_array"@,
        16 => "FastPropertyName"@,
        17 => "first"@,
        18 => "float"@,
        19 => "Font"@,
        20 => "GameObject"@,
        21 => "Generic Mono"@,
        22 => "GradientNEW"@,
        23 => "GUID"@,
        24 => "GUIStyle"@,
        25 => "int"@,
        26 => "list"@,
        27 => "long long"@,
        28 => "map"@,
        29 => "Matrix4x4f"@,
        30 => "MdFour"@,
        31 => "MonoBehaviour"@,
        32 => "MonoScript"@,
        33 => "m_ByteSize"@,
        34 => "m_Curve"@,
        35 => "m_EditorClassIdentifier"@,
        36 => "m_EditorHideFlags"@,
        37 => "m_Enabled"@,
        38 => "m_ExtensionPtr"@,
        39 => "m_GameObject"@,
        40 => "m_Index"@,
        41 => "m_IsArray"@,
        42 => "m_IsStatic"@,
        43 => "m_MetaFlag"@,
        44 => "m_Name"@,
        45 => "m_ObjectHideFlags"@,
        46 => "m_PrefabInternal"@,
        47 => "m_PrefabParentObject"@,
        48 => "m_Script"@,
        49 => "m_StaticEditorFlags"@,
        50 => "m_Type"@,
        51 => "m_Version"@,
        52 => "Object"@,
        53 => "pair"@,
        54 => "PPtr<Component>"@,
        55 => "PPtr<GameObject>"@,
        56 => "PPtr<Material>"@,
        57 => "PPtr<MonoBehaviour>"@,
        58 => "PPtr<MonoScript>"@,
        59 => "PPtr<Object>"@,
        60 => "PPtr<Prefab>"@,
        61 => "PPtr<Sprite>"@,
        62 => "PPtr<TextAsset>"@,
        63 => "PPtr<Texture>"@,
        64 => "PPtr<Texture2D>"@,
        65 => "PPtr<Transform>"@,
        66 => "Prefab"@,
        67 => "Quaternionf"@,
        68 => "Rectf"@,
        69 => "RectInt"@,
        70 => "RectOffset"@,
        71 => "second"@,
        72 => "set"@,
        73 => "short"@,
        74 => "size"@,
        75 => "SInt16"@,
        76 => "SInt32"@,
        77 => "SInt64"@,
        78 => "SInt8"@,
        79 => "staticvector"@,
        80 => "string"@,
        81 => "TextAsset"@,
        82 => "TextMesh"@,
        83 => "Texture"@,
        84 => "Texture2D"@,
        85 => "Transform"@,
        86 => "TypelessData"@,
        87 => "UInt16"@,
        88 => "UInt32"@,
        89 => "UInt64"@,
        90 => "UInt8"@,
        91 => "unsigned int"@,
        92 => "unsigned long long"@,
        93 => "unsigned short"@,
        94 => "vector"@,
        95 => "Vector2f"@,
        96 => "Vector3f"@,
        97 => "Vector4f"@,
        98 => "m_ScriptingClassIdentifier"@,
        99 => "Gradient"@,
        100 => "Type*"@,
        101 => "int2_storage"@,
        102 => "int3_storage"@,
        103 => "BoundsInt"@,
        104 => "m_CorrespondingSourceObject"@,
        105 => "m_PrefabInstance"@,
        106 => "m_PrefabAsset"@,
        107 => "FileSize"@,
        108 => "Hash128"@,
        _ => Seq::empty(),
    }
}

/// The number of names in the common string table.
pub open spec fn common_name_count() -> int {
    109
}

/// The common string table as stored: the names in order, each followed
/// by a NUL; `common_table(n)` holds the first `n` of them.
pub open spec fn common_table(n: int) -> Seq<char>
    decreases n,
{
    if n <= 0 {
        Seq::empty()
    } else {
        common_table(n - 1) + common_name((n - 1) as u32) + seq!['\0']
    }
}

proof fn lemma_common_table_entry(n: int, i: int)
    requires
        0 <= i < n,
    ensures
        common_table(n).len() >= common_table(i + 1).len(),
        common_table(n).subrange(common_table(i).len() as int, (common_table(i).len() + common_name(i as u32).len()) as int)
            == common_name(i as u32),
        common_table(n)[(common_table(i).len() + common_name(i as u32).len()) as int] == '\0',
    decreases n,
{
    if i < n - 1 {
        lemma_common_table_entry(n - 1, i);
        let t = common_table(n - 1);
        assert(common_table(n) == t + common_name((n - 1) as u32) + seq!['\0']);
        let a = common_table(i).len() as int;
        let b = (a + common_name(i as u32).len()) as int;
        assert(common_table(n).subrange(a, b) =~= t.subrange(a, b));
        assert(common_table(n)[b] == t[b]);
    } else {
        let t = common_table(i);
        assert(common_table(n) == t + common_name(i as u32) + seq!['\0']);
        assert(common_table(n).subrange(t.len() as int, (t.len() + common_name(i as u32).len()) as int) =~= common_name(i as u32));
    }
}

#[verifier::rlimit(100)]
proof fn lemma_common_starts()
    ensures
        common_table(0).len() == 0,
        common_table(1).len() == 5,
        common_table(2).len() == 19,
        common_table(3).len() == 34,
        common_table(4).len() == 49,
        common_table(5).len() == 55,
        common_table(6).len() == 60,
        common_table(7).len() == 69,
        common_table(8).len() == 76,
        common_table(9).len() == 81,
        common_table(10).len() == 86,
        common_table(11).len() == 96,
        common_table(12).len() == 106,
        common_table(13).len() == 111,
        common_table(14).len() == 117,
        common_table(15).len() == 124,
        common_table(16).len() == 138,
        common_table(17).len() == 155,
        common_table(18).len() == 161,
        common_table(19).len() == 167,
        common_table(20).len() == 172,
        common_table(21).len() == 183,
        common_table(22).len() == 196,
        common_table(23).len() == 208,
        common_table(24).len() == 213,
        common_table(25).len() == 222,
        common_table(26).len() == 226,
        common_table(27).len() == 231,
        common_table(28).len() == 241,
        common_table(29).len() == 245,
        common_table(30).len() == 256,
        common_table(31).len() == 263,
        common_table(32).len() == 277,
        common_table(33).len() == 288,
        common_table(34).len() == 299,
        common_table(35).len() == 307,
        common_table(36).len() == 331,
        common_table(37).len() == 349,
        common_table(38).len() == 359,
        common_table(39).len() == 374,
        common_table(40).len() == 387,
        common_table(41).len() == 395,
        common_table(42).len() == 405,
        common_table(43).len() == 416,
        common_table(44).len() == 427,
        common_table(45).len() == 434,
        common_table(46).len() == 452,
        common_table(47).len() == 469,
        common_table(48).len() == 490,
        common_table(49).len() == 499,
        common_table(50).len() == 519,
        common_table(51).len() == 526,
        common_table(52).len() == 536,
        common_table(53).len() == 543,
        common_table(54).len() == 548,
        common_table(55).len() == 564,
        common_table(56).len() == 581,
        common_table(57).len() == 596,
        common_table(58).len() == 616,
        common_table(59).len() == 633,
        common_table(60).len() == 646,
        common_table(61).len() == 659,
        common_table(62).len() == 672,
        common_table(63).len() == 688,
        common_table(64).len() == 702,
        common_table(65).len() == 718,
        common_table(66).len() == 734,
        common_table(67).len() == 741,
        common_table(68).len() == 753,
        common_table(69).len() == 759,
        common_table(70).len() == 767,
        common_table(71).len() == 778,
        common_table(72).len() == 785,
        common_table(73).len() == 789,
        common_table(74).len() == 795,
        common_table(75).len() == 800,
        common_table(76).len() == 807,
        common_table(77).len() == 814,
        common_table(78).len() == 821,
        common_table(79).len() == 827,
        common_table(80).len() == 840,
        common_table(81).len() == 847,
        common_table(82).len() == 857,
        common_table(83).len() == 866,
        common_table(84).len() == 874,
        common_table(85).len() == 884,
        common_table(86).len() == 894,
        common_table(87).len() == 907,
        common_table(88).len() == 914,
        common_table(89).len() == 921,
        common_table(90).len() == 928,
        common_table(91).len() == 934,
        common_table(92).len() == 947,
        common_table(93).len() == 966,
        common_table(94).len() == 981,
        common_table(95).len() == 988,
        common_table(96).len() == 997,
        common_table(97).len() == 1006,
        common_table(98).len() == 1015,
        common_table(99).len() == 1042,
        common_table(100).len() == 1051,
        common_table(101).len() == 1057,
        common_table(102).len() == 1070,
        common_table(103).len() == 1083,
        common_table(104).len() == 1093,
        common_table(105).len() == 1121,
        common_table(106).len() == 1138,
        common_table(107).len() == 1152,
        common_table(108).len() == 1161,
        common_table(109).len() == 1169,
{
    assert(common_table(0).len() == 0);
    reveal_strlit("AABB");
    assert(common_table(1).len() == 5);
    reveal_strlit("AnimationClip");
    assert(common_table(2).len() == 19);
    reveal_strlit("AnimationCurve");
    assert(common_table(3).len() == 34);
    reveal_strlit("AnimationState");
    assert(common_table(4).len() == 49);
    reveal_strlit("Array");
    assert(common_table(5).len() == 55);
    reveal_strlit("Base");
    assert(common_table(6).len() == 60);
    reveal_strlit("BitField");
    assert(common_table(7).len() == 69);
    reveal_strlit("bitset");
    assert(common_table(8).len() == 76);
    reveal_strlit("bool");
    assert(common_table(9).len() == 81);
    reveal_strlit("char");
    assert(common_table(10).len() == 86);
    reveal_strlit("ColorRGBA");
    assert(common_table(11).len() == 96);
    reveal_strlit("Component");
    assert(common_table(12).len() == 106);
    reveal_strlit("data");
    assert(common_table(13).len() == 111);
    reveal_strlit("deque");
    assert(common_table(14).len() == 117);
    reveal_strlit("double");
    assert(common_table(15).len() == 124);
    reveal_strlit("dynamic_array");
    assert(common_table(16).len() == 138);
    reveal_strlit("FastPropertyName");
    assert(common_table(17).len() == 155);
    reveal_strlit("first");
    assert(common_table(18).len() == 161);
    reveal_strlit("float");
    assert(common_table(19).len() == 167);
    reveal_strlit("Font");
    assert(common_table(20).len() == 172);
    reveal_strlit("GameObject");
    assert(common_table(21).len() == 183);
    reveal_strlit("Generic Mono");
    assert(common_table(22).len() == 196);
    reveal_strlit("GradientNEW");
    assert(common_table(23).len() == 208);
    reveal_strlit("GUID");
    assert(common_table(24).len() == 213);
    reveal_strlit("GUIStyle");
    assert(common_table(25).len() == 222);
    reveal_strlit("int");
    assert(common_table(26).len() == 226);
    reveal_strlit("list");
    assert(common_table(27).len() == 231);
    reveal_strlit("long long");
    assert(common_table(28).len() == 241);
    reveal_strlit("map");
    assert(common_table(29).len() == 245);
    reveal_strlit("Matrix4x4f");
    assert(common_table(30).len() == 256);
    reveal_strlit("MdFour");
    assert(common_table(31).len() == 263);
    reveal_strlit("MonoBehaviour");
    assert(common_table(32).len() == 277);
    reveal_strlit("MonoScript");
    assert(common_table(33).len() == 288);
    reveal_strlit("m_ByteSize");
    assert(common_table(34).len() == 299);
    reveal_strlit("m_Curve");
    assert(common_table(35).len() == 307);
    reveal_strlit("m_EditorClassIdentifier");
    assert(common_table(36).len() == 331);
    reveal_strlit("m_EditorHideFlags");
    assert(common_table(37).len() == 349);
    reveal_strlit("m_Enabled");
    assert(common_table(38).len() == 359);
    reveal_strlit("m_ExtensionPtr");
    assert(common_table(39).len() == 374);
    reveal_strlit("m_GameObject");
    assert(common_table(40).len() == 387);
    reveal_strlit("m_Index");
    assert(common_table(41).len() == 395);
    reveal_strlit("m_IsArray");
    assert(common_table(42).len() == 405);
    reveal_strlit("m_IsStatic");
    assert(common_table(43).len() == 416);
    reveal_strlit("m_MetaFlag");
    assert(common_table(44).len() == 427);
    reveal_strlit("m_Name");
    assert(common_table(45).len() == 434);
    reveal_strlit("m_ObjectHideFlags");
    assert(common_table(46).len() == 452);
    reveal_strlit("m_PrefabInternal");
    assert(common_table(47).len() == 469);
    reveal_strlit("m_PrefabParentObject");
    assert(common_table(48).len() == 490);
    reveal_strlit("m_Script");
    assert(common_table(49).len() == 499);
    reveal_strlit("m_StaticEditorFlags");
    assert(common_table(50).len() == 519);
    reveal_strlit("m_Type");
    assert(common_table(51).len() == 526);
    reveal_strlit("m_Version");
    assert(common_table(52).len() == 536);
    reveal_strlit("Object");
    assert(common_table(53).len() == 543);
    reveal_strlit("pair");
    assert(common_table(54).len() == 548);
    reveal_strlit("PPtr<Component>");
    assert(common_table(55).len() == 564);
    reveal_strlit("PPtr<GameObject>");
    assert(common_table(56).len() == 581);
    reveal_strlit("PPtr<Material>");
    assert(common_table(57).len() == 596);
    reveal_strlit("PPtr<MonoBehaviour>");
    assert(common_table(58).len() == 616);
    reveal_strlit("PPtr<MonoScript>");
    assert(common_table(59).len() == 633);
    reveal_strlit("PPtr<Object>");
    assert(common_table(60).len() == 646);
    reveal_strlit("PPtr<Prefab>");
    assert(common_table(61).len() == 659);
    reveal_strlit("PPtr<Sprite>");
    assert(common_table(62).len() == 672);
    reveal_strlit("PPtr<TextAsset>");
    assert(common_table(63).len() == 688);
    reveal_strlit("PPtr<Texture>");
    assert(common_table(64).len() == 702);
    reveal_strlit("PPtr<Texture2D>");
    assert(common_table(65).len() == 718);
    reveal_strlit("PPtr<Transform>");
    assert(common_table(66).len() == 734);
    reveal_strlit("Prefab");
    assert(common_table(67).len() == 741);
    reveal_strlit("Quaternionf");
    assert(common_table(68).len() == 753);
    reveal_strlit("Rectf");
    assert(common_table(69).len() == 759);
    reveal_strlit("RectInt");
    assert(common_table(70).len() == 767);
    reveal_strlit("RectOffset");
    assert(common_table(71).len() == 778);
    reveal_strlit("second");
    assert(common_table(72).len() == 785);
    reveal_strlit("set");
    assert(common_table(73).len() == 789);
    reveal_strlit("short");
    assert(common_table(74).len() == 795);
    reveal_strlit("size");
    assert(common_table(75).len() == 800);
    reveal_strlit("SInt16");
    assert(common_table(76).len() == 807);
    reveal_strlit("SInt32");
    assert(common_table(77).len() == 814);
    reveal_strlit("SInt64");
    assert(common_table(78).len() == 821);
    reveal_strlit("SInt8");
    assert(common_table(79).len() == 827);
    reveal_strlit("staticvector");
    assert(common_table(80).len() == 840);
    reveal_strlit("string");
    assert(common_table(81).len() == 847);
    reveal_strlit("TextAsset");
    assert(common_table(82).len() == 857);
    reveal_strlit("TextMesh");
    assert(common_table(83).len() == 866);
    reveal_strlit("Texture");
    assert(common_table(84).len() == 874);
    reveal_strlit("Texture2D");
    assert(common_table(85).len() == 884);
    reveal_strlit("Transform");
    assert(common_table(86).len() == 894);
    reveal_strlit("TypelessData");
    assert(common_table(87).len() == 907);
    reveal_strlit("UInt16");
    assert(common_table(88).len() == 914);
    reveal_strlit("UInt32");
    assert(common_table(89).len() == 921);
    reveal_strlit("UInt64");
    assert(common_table(90).len() == 928);
    reveal_strlit("UInt8");
    assert(common_table(91).len() == 934);
    reveal_strlit("unsigned int");
    assert(common_table(92).len() == 947);
    reveal_strlit("unsigned long long");
    assert(common_table(93).len() == 966);
    reveal_strlit("unsigned short");
    assert(common_table(94).len() == 981);
    reveal_strlit("vector");
    assert(common_table(95).len() == 988);
    reveal_strlit("Vector2f");
    assert(common_table(96).len() == 997);
    reveal_strlit("Vector3f");
    assert(common_table(97).len() == 1006);
    reveal_strlit("Vector4f");
    assert(common_table(98).len() == 1015);
    reveal_strlit("m_ScriptingClassIdentifier");
    assert(common_table(99).len() == 1042);
    reveal_strlit("Gradient");
    assert(common_table(100).len() == 1051);
    reveal_strlit("Type*");
    assert(common_table(101).len() == 1057);
    reveal_strlit("int2_storage");
    assert(common_table(102).len() == 1070);
    reveal_strlit("int3_storage");
    assert(common_table(103).len() == 1083);
    reveal_strlit("BoundsInt");
    assert(common_table(104).len() == 1093);
    reveal_strlit("m_CorrespondingSourceObject");
    assert(common_table(105).len() == 1121);
    reveal_strlit("m_PrefabInstance");
    assert(common_table(106).len() == 1138);
    reveal_strlit("m_PrefabAsset");
    assert(common_table(107).len() == 1152);
    reveal_strlit("FileSize");
    assert(common_table(108).len() == 1161);
    reveal_strlit("Hash128");
    assert(common_table(109).len() == 1169);
}

proof fn lemma_common_entry_name(i: int)
    requires
        0 <= i < common_name_count(),
    ensures
        spec_common_string(common_table(i).len() as u32) == common_name(i as u32),
{
    lemma_common_starts();
    match i as u32 {
        0u32 => {},
        1u32 => {},
        2u32 => {},
        3u32 => {},
        4u32 => {},
        5u32 => {},
        6u32 => {},
        7u32 => {},
        8u32 => {},
        9u32 => {},
        10u32 => {},
        11u32 => {},
        12u32 => {},
        13u32 => {},
        14u32 => {},
        15u32 => {},
        16u32 => {},
        17u32 => {},
        18u32 => {},
        19u32 => {},
        20u32 => {},
        21u32 => {},
        22u32 => {},
        23u32 => {},
        24u32 => {},
        25u32 => {},
        26u32 => {},
        27u32 => {},
        28u32 => {},
        29u32 => {},
        30u32 => {},
        31u32 => {},
        32u32 => {},
        33u32 => {},
        34u32 => {},
        35u32 => {},
        36u32 => {},
        37u32 => {},
        38u32 => {},
        39u32 => {},
        40u32 => {},
        41u32 => {},
        42u32 => {},
        43u32 => {},
        44u32 => {},
        45u32 => {},
        46u32 => {},
        47u32 => {},
        48u32 => {},
        49u32 => {},
        50u32 => {},
        51u32 => {},
        52u32 => {},
        53u32 => {},
        54u32 => {},
        55u32 => {},
        56u32 => {},
        57u32 => {},
        58u32 => {},
        59u32 => {},
        60u32 => {},
        61u32 => {},
        62u32 => {},
        63u32 => {},
        64u32 => {},
        65u32 => {},
        66u32 => {},
        67u32 => {},
        68u32 => {},
        69u32 => {},
        70u32 => {},
        71u32 => {},
        72u32 => {},
        73u32 => {},
        74u32 => {},
        75u32 => {},
        76u32 => {},
        77u32 => {},
        78u32 => {},
        79u32 => {},
        80u32 => {},
        81u32 => {},
        82u32 => {},
        83u32 => {},
        84u32 => {},
        85u32 => {},
        86u32 => {},
        87u32 => {},
        88u32 => {},
        89u32 => {},
        90u32 => {},
        91u32 => {},
        92u32 => {},
        93u32 => {},
        94u32 => {},
        95u32 => {},
        96u32 => {},
        97u32 => {},
        98u32 => {},
        99u32 => {},
        100u32 => {},
        101u32 => {},
        102u32 => {},
        103u32 => {},
        104u32 => {},
        105u32 => {},
        106u32 => {},
        107u32 => {},
        108u32 => {},
        _ => {},
    }
}

#[verifier::rlimit(100)]
proof fn lemma_no_entry_no_name(k: u32)
    ensures
        (forall|i: int| 0 <= i < common_name_count() ==> #[trigger] common_table(i).len() != k)
            ==> spec_common_string(k) == Seq::<char>::empty(),
{
    lemma_common_starts();
    reveal_strlit("");
}

proof fn lemma_name_has_no_nul(i: int, j: int)
    requires
        0 <= i < common_name_count(),
        0 <= j < common_name(i as u32).len(),
    ensures
        common_name(i as u32)[j] != '\0',
{
    match i as u32 {
        0u32 => {
            reveal_strlit("AABB");
        },
        1u32 => {
            reveal_strlit("AnimationClip");
        },
        2u32 => {
            reveal_strlit("AnimationCurve");
        },
        3u32 => {
            reveal_strlit("AnimationState");
        },
        4u32 => {
            reveal_strlit("Array");
        },
        5u32 => {
            reveal_strlit("Base");
        },
        6u32 => {
            reveal_strlit("BitField");
        },
        7u32 => {
            reveal_strlit("bitset");
        },
        8u32 => {
            reveal_strlit("bool");
        },
        9u32 => {
            reveal_strlit("char");
        },
        10u32 => {
            reveal_strlit("ColorRGBA");
        },
        11u32 => {
            reveal_strlit("Component");
        },
        12u32 => {
            reveal_strlit("data");
        },
        13u32 => {
            reveal_strlit("deque");
        },
        14u32 => {
            reveal_strlit("double");
        },
        15u32 => {
            reveal_strlit("dynamic_array");
        },
        16u32 => {
            reveal_strlit("FastPropertyName");
        },
        17u32 => {
            reveal_strlit("first");
        },
        18u32 => {
            reveal_strlit("float");
        },
        19u32 => {
            reveal_strlit("Font");
        },
        20u32 => {
            reveal_strlit("GameObject");
        },
        21u32 => {
            reveal_strlit("Generic Mono");
        },
        22u32 => {
            reveal_strlit("GradientNEW");
        },
        23u32 => {
            reveal_strlit("GUID");
        },
        24u32 => {
            reveal_strlit("GUIStyle");
        },
        25u32 => {
            reveal_strlit("int");
        },
        26u32 => {
            reveal_strlit("list");
        },
        27u32 => {
            reveal_strlit("long long");
        },
        28u32 => {
            reveal_strlit("map");
        },
        29u32 => {
            reveal_strlit("Matrix4x4f");
        },
        30u32 => {
            reveal_strlit("MdFour");
        },
        31u32 => {
            reveal_strlit("MonoBehaviour");
        },
        32u32 => {
            reveal_strlit("MonoScript");
        },
        33u32 => {
            reveal_strlit("m_ByteSize");
        },
        34u32 => {
            reveal_strlit("m_Curve");
        },
        35u32 => {
            reveal_strlit("m_EditorClassIdentifier");
        },
        36u32 => {
            reveal_strlit("m_EditorHideFlags");
        },
        37u32 => {
            reveal_strlit("m_Enabled");
        },
        38u32 => {
            reveal_strlit("m_ExtensionPtr");
        },
        39u32 => {
            reveal_strlit("m_GameObject");
        },
        40u32 => {
            reveal_strlit("m_Index");
        },
        41u32 => {
            reveal_strlit("m_IsArray");
        },
        42u32 => {
            reveal_strlit("m_IsStatic");
        },
        43u32 => {
            reveal_strlit("m_MetaFlag");
        },
        44u32 => {
            reveal_strlit("m_Name");
        },
        45u32 => {
            reveal_strlit("m_ObjectHideFlags");
        },
        46u32 => {
            reveal_strlit("m_PrefabInternal");
        },
        47u32 => {
            reveal_strlit("m_PrefabParentObject");
        },
        48u32 => {
            reveal_strlit("m_Script");
        },
        49u32 => {
            reveal_strlit("m_StaticEditorFlags");
        },
        50u32 => {
            reveal_strlit("m_Type");
        },
        51u32 => {
            reveal_strlit("m_Version");
        },
        52u32 => {
            reveal_strlit("Object");
        },
        53u32 => {
            reveal_strlit("pair");
        },
        54u32 => {
            reveal_strlit("PPtr<Component>");
        },
        55u32 => {
            reveal_strlit("PPtr<GameObject>");
        },
        56u32 => {
            reveal_strlit("PPtr<Material>");
        },
        57u32 => {
            reveal_strlit("PPtr<MonoBehaviour>");
        },
        58u32 => {
            reveal_strlit("PPtr<MonoScript>");
        },
        59u32 => {
            reveal_strlit("PPtr<Object>");
        },
        60u32 => {
            reveal_strlit("PPtr<Prefab>");
        },
        61u32 => {
            reveal_strlit("PPtr<Sprite>");
        },
        62u32 => {
            reveal_strlit("PPtr<TextAsset>");
        },
        63u32 => {
            reveal_strlit("PPtr<Texture>");
        },
        64u32 => {
            reveal_strlit("PPtr<Texture2D>");
        },
        65u32 => {
            reveal_strlit("PPtr<Transform>");
        },
        66u32 => {
            reveal_strlit("Prefab");
        },
        67u32 => {
            reveal_strlit("Quaternionf");
        },
        68u32 => {
            reveal_strlit("Rectf");
        },
        69u32 => {
            reveal_strlit("RectInt");
        },
        70u32 => {
            reveal_strlit("RectOffset");
        },
        71u32 => {
            reveal_strlit("second");
        },
        72u32 => {
            reveal_strlit("set");
        },
        73u32 => {
            reveal_strlit("short");
        },
        74u32 => {
            reveal_strlit("size");
        },
        75u32 => {
            reveal_strlit("SInt16");
        },
        76u32 => {
            reveal_strlit("SInt32");
        },
        77u32 => {
            reveal_strlit("SInt64");
        },
        78u32 => {
            reveal_strlit("SInt8");
        },
        79u32 => {
            reveal_strlit("staticvector");
        },
        80u32 => {
            reveal_strlit("string");
        },
        81u32 => {
            reveal_strlit("TextAsset");
        },
        82u32 => {
            reveal_strlit("TextMesh");
        },
        83u32 => {
            reveal_strlit("Texture");
        },
        84u32 => {
            reveal_strlit("Texture2D");
        },
        85u32 => {
            reveal_strlit("Transform");
        },
        86u32 => {
            reveal_strlit("TypelessData");
        },
        87u32 => {
            reveal_strlit("UInt16");
        },
        88u32 => {
            reveal_strlit("UInt32");
        },
        89u32 => {
            reveal_strlit("UInt64");
        },
        90u32 => {
            reveal_strlit("UInt8");
        },
        91u32 => {
            reveal_strlit("unsigned int");
        },
        92u32 => {
            reveal_strlit("unsigned long long");
        },
        93u32 => {
            reveal_strlit("unsigned short");
        },
        94u32 => {
            reveal_strlit("vector");
        },
        95u32 => {
            reveal_strlit("Vector2f");
        },
        96u32 => {
            reveal_strlit("Vector3f");
        },
        97u32 => {
            reveal_strlit("Vector4f");
        },
        98u32 => {
            reveal_strlit("m_ScriptingClassIdentifier");
        },
        99u32 => {
            reveal_strlit("Gradient");
        },
        100u32 => {
            reveal_strlit("Type*");
        },
        101u32 => {
            reveal_strlit("int2_storage");
        },
        102u32 => {
            reveal_strlit("int3_storage");
        },
        103u32 => {
            reveal_strlit("BoundsInt");
        },
        104u32 => {
            reveal_strlit("m_CorrespondingSourceObject");
        },
        105u32 => {
            reveal_strlit("m_PrefabInstance");
        },
        106u32 => {
            reveal_strlit("m_PrefabAsset");
        },
        107u32 => {
            reveal_strlit("FileSize");
        },
        108u32 => {
            reveal_strlit("Hash128");
        },
        _ => {},
    }
}

/// The position of the first NUL of `t` at or after `k`, or its length
/// where there is none.
pub open spec fn next_nul(t: Seq<char>, k: int) -> int
    decreases t.len() - k,
{
    if k < 0 || k >= t.len() {
        t.len() as int
    } else if t[k] == '\0' {
        k
    } else {
        next_nul(t, k + 1)
    }
}

proof fn lemma_next_nul(t: Seq<char>, k: int, e: int)
    requires
        0 <= k <= e < t.len(),
        t[e] == '\0',
        forall|j: int| k <= j < e ==> t[j] != '\0',
    ensures
        next_nul(t, k) == e,
    decreases e - k,
{
    if k < e {
        lemma_next_nul(t, k + 1, e);
    }
}

proof fn lemma_nul_position(n: int, p: int) -> (i: int)
    requires
        0 <= n <= common_name_count(),
        0 <= p < common_table(n).len(),
        common_table(n)[p] == '\0',
    ensures
        0 <= i < n,
        p == common_table(i + 1).len() - 1,
    decreases n,
{
    let prev = common_table(n - 1);
    let name = common_name((n - 1) as u32);
    assert(common_table(n) == prev + name + seq!['\0']);
    if p < prev.len() {
        assert(common_table(n)[p] == prev[p]);
        lemma_nul_position(n - 1, p)
    } else if p < prev.len() + name.len() {
        assert(common_table(n)[p] == name[p - prev.len()]);
        lemma_name_has_no_nul(n - 1, p - prev.len());
        n - 1
    } else {
        n - 1
    }
}

/// The common names lie in one text, each followed by a NUL: at an offset
/// where an entry of that text starts (offset 0, or just after a NUL), the
/// name is the text up to the next NUL; at any other offset there is none.
pub proof fn common_string_reads_the_table(k: u32)
    ensures
        common_table(common_name_count()).len() == 1169,
        spec_common_string(k) == ({
            let t = common_table(common_name_count());
            if k < t.len() && (k == 0 || t[k - 1] == '\0') {
                t.subrange(k as int, next_nul(t, k as int))
            } else {
                Seq::<char>::empty()
            }
        }),
{
    let count = common_name_count();
    let t = common_table(count);
    lemma_common_starts();
    lemma_no_entry_no_name(k);
    if exists|i: int| 0 <= i < count && #[trigger] common_table(i).len() == k {
        let i = choose|i: int| 0 <= i < count && #[trigger] common_table(i).len() == k;
        let name = common_name(i as u32);
        lemma_common_table_entry(count, i);
        lemma_common_entry_name(i);
        assert forall|j: int| k <= j < k + name.len() implies t[j] != '\0' by {
            assert(t.subrange(k as int, k + name.len())[j - k] == t[j]);
            lemma_name_has_no_nul(i, j - k);
        }
        lemma_next_nul(t, k as int, k + name.len());
        if i > 0 {
            lemma_common_table_entry(count, i - 1);
            assert(common_table(i) == common_table(i - 1) + common_name((i - 1) as u32) + seq!['\0']);
        }
    } else {
        if k < t.len() && k != 0 && t[k - 1] == '\0' {
            let i = lemma_nul_position(count, k - 1);
            if i + 1 < count {
                assert(common_table(i + 1).len() == k);
            }
        }
    }
}

/// The common names lie in one table, each followed by a NUL: the name at
/// the offset where an entry starts is that entry, and an offset where no
/// entry starts has no name.
pub proof fn common_names_form_one_table(k: u32)
    ensures
        forall|i: int| #![trigger common_table(i)] 0 <= i < common_name_count() ==> {
            let start = common_table(i).len() as int;
            &&& common_table(common_name_count()).subrange(start, (start + common_name(i as u32).len()) as int)
                == common_name(i as u32)
            &&& common_table(common_name_count())[(start + common_name(i as u32).len()) as int] == '\0'
            &&& spec_common_string(start as u32) == common_name(i as u32)
        },
        (forall|i: int| 0 <= i < common_name_count() ==> #[trigger] common_table(i).len() != k)
            ==> spec_common_string(k) == Seq::<char>::empty(),
{
    lemma_no_entry_no_name(k);
    assert forall|i: int| #![trigger common_table(i)] 0 <= i < common_name_count() implies {
        let start = common_table(i).len() as int;
        &&& common_table(common_name_count()).subrange(start, (start + common_name(i as u32).len()) as int)
            == common_name(i as u32)
        &&& common_table(common_name_count())[(start + common_name(i as u32).len()) as int] == '\0'
        &&& spec_common_string(start as u32) == common_name(i as u32)
    } by {
        lemma_common_table_entry(common_name_count(), i);
        lemma_common_entry_name(i);
    }
}

} // verus!
