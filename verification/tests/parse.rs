use solution_view::parse::{
    asmdef_from_json, classify_tag, normalize_separators, parse_asmdef, parse_csproj,
    parse_solution, quoted_fields, AsmdefInfo, CsprojElement, CsprojInfo, CsprojTag,
    SolutionProject,
};

fn project(name: &str, csproj_rel: &str) -> SolutionProject {
    SolutionProject {
        name: name.to_string(),
        csproj_rel: csproj_rel.to_string(),
    }
}

#[test]
fn parses_solution_projects_and_skips_folders() {
    let sln = r#"
Microsoft Visual Studio Solution File, Format Version 12.00
Project("{FAE04EC0-301F-11D3-BF4B-00C04F79EFBC}") = "Assembly-CSharp", "Assembly-CSharp.csproj", "{111}"
Project("{2150E333-8FDC-42A3-9474-1A3956D46DE8}") = "SolutionFolder", "SolutionFolder", "{222}"
Project("{FAE04EC0-301F-11D3-BF4B-00C04F79EFBC}") = "Game", "src\Game\Game.csproj", "{333}"
Global
EndGlobal
"#;
    assert_eq!(
        parse_solution(sln),
        vec![
            SolutionProject {
                name: "Assembly-CSharp".to_string(),
                csproj_rel: "Assembly-CSharp.csproj".to_string(),
            },
            SolutionProject {
                name: "Game".to_string(),
                csproj_rel: "src/Game/Game.csproj".to_string(),
            },
        ]
    );
}

#[test]
fn parses_csproj_references() {
    let csproj = r#"
<Project Sdk="Microsoft.NET.Sdk">
  <ItemGroup>
    <PackageReference Include="Newtonsoft.Json" Version="13.0.3" />
    <PackageReference Include="Serilog" />
    <ProjectReference Include="..\Core\Core.csproj" />
  </ItemGroup>
</Project>
"#;
    let info = parse_csproj(csproj);
    assert!(info.is_sdk_style);
    assert_eq!(
        info.package_references,
        vec![
            ("Newtonsoft.Json".to_string(), Some("13.0.3".to_string())),
            ("Serilog".to_string(), None),
        ]
    );
    assert_eq!(info.project_references, vec!["../Core/Core.csproj".to_string()]);
    assert!(info.compile_items.is_empty());
}

#[test]
fn parses_legacy_csproj_compile_items() {
    let csproj = r#"
<Project ToolsVersion="4.0" xmlns="http://schemas.microsoft.com/developer/msbuild/2003">
  <ItemGroup>
    <Compile Include="Assets\Scripts\Player.cs" />
    <Compile Include="Assets\Scripts\Enemy.cs" />
    <None Include="Packages\tech.aspid.fasttools\package.json" />
    <Compile Remove="Assets\Scripts\Old.cs" />
    <Reference Include="UnityEngine" />
  </ItemGroup>
</Project>
"#;
    let info = parse_csproj(csproj);
    assert!(!info.is_sdk_style);
    assert_eq!(
        info.compile_items,
        vec![
            "Assets/Scripts/Player.cs".to_string(),
            "Assets/Scripts/Enemy.cs".to_string(),
            "Packages/tech.aspid.fasttools/package.json".to_string(),
        ]
    );
}

#[test]
fn parses_asmdef() {
    let asmdef = r#"{ "name": "Game.Runtime", "references": ["GUID:abc123", "Core.Runtime"] }"#;
    assert_eq!(
        parse_asmdef(asmdef),
        Some(AsmdefInfo {
            name: "Game.Runtime".to_string(),
            references: vec!["GUID:abc123".to_string(), "Core.Runtime".to_string()],
        })
    );
    assert_eq!(parse_asmdef("not json"), None);
}

#[test]
fn solution_lines_may_be_indented_and_end_in_carriage_returns() {
    let sln = "\r\n\t Project(\"{1}\") = \"A\", \"a\\b\\A.CSPROJ\", \"{2}\" \r\nEndProject\r\n";
    assert_eq!(parse_solution(sln), vec![project("A", "a/b/A.CSPROJ")]);
}

#[test]
fn solution_lines_that_declare_nothing_are_passed_over() {
    assert_eq!(parse_solution(""), vec![]);
    // No `Project(` at the start.
    assert_eq!(parse_solution("xProject(\"{1}\") = \"A\", \"A.csproj\""), vec![]);
    // No `=`.
    assert_eq!(parse_solution("Project(\"{1}\") \"A\", \"A.csproj\""), vec![]);
    // Only one field.
    assert_eq!(parse_solution("Project(\"{1}\") = \"A.csproj\""), vec![]);
    // Not a project file.
    assert_eq!(parse_solution("Project(\"{1}\") = \"A\", \"A.vbproj\""), vec![]);
    assert_eq!(parse_solution("Project(\"{1}\") = \"A\", \"A.csproj.user\""), vec![]);
    // A field that is never closed runs to the end of the line.
    assert_eq!(
        parse_solution("Project(\"{1}\") = \"A\", \"A.csproj"),
        vec![project("A", "A.csproj")]
    );
}

#[test]
fn solutions_on_following_lines_add_up() {
    let first = "Project(\"{1}\") = \"A\", \"A.csproj\"";
    let second = "Project(\"{1}\") = \"B\", \"B.csproj\"";
    let both = format!("{first}\n{second}");
    assert_eq!(
        parse_solution(&both),
        vec![project("A", "A.csproj"), project("B", "B.csproj")]
    );
}

#[test]
fn quoted_fields_are_taken_pairwise() {
    assert_eq!(quoted_fields("no quotes"), Vec::<String>::new());
    assert_eq!(quoted_fields(" \"a\", \"\" x \"b"), vec!["a", "", "b"]);
    assert_eq!(quoted_fields("\""), vec![""]);
}

#[test]
fn separators_become_slashes() {
    assert_eq!(normalize_separators("a\\b/c\\"), "a/b/c/");
    assert_eq!(normalize_separators(&normalize_separators("..\\x")), "../x");
}

#[test]
fn attribute_values_are_unescaped() {
    let info = parse_csproj(
        "<Project><PackageReference Include=\"A&amp;B\" Version='&lt;1&#46;0&#x3e;'/></Project>",
    );
    assert_eq!(
        info.package_references,
        vec![("A&B".to_string(), Some("<1.0>".to_string()))]
    );
}

#[test]
fn unreadable_attributes_count_as_absent() {
    // An entity that is not defined.
    let info = parse_csproj(
        "<Project Sdk=\"&nope;\"><PackageReference Include=\"A\" Version=\"&nope;\"/></Project>",
    );
    assert!(!info.is_sdk_style);
    assert_eq!(info.package_references, vec![("A".to_string(), None)]);
    // An attribute list that breaks off before the attribute.
    let info = parse_csproj("<Project><Compile Broken Include=\"a.cs\"/></Project>");
    assert_eq!(info.compile_items, Vec::<String>::new());
}

#[test]
fn elements_are_told_apart_by_their_exact_names() {
    let info = parse_csproj(
        "<project Sdk=\"x\"><compile Include=\"a\"/><Compile include=\"b\"/><x:Compile \
         Include=\"c\"/><None Include=\"d\"></None></project>",
    );
    assert_eq!(
        info,
        CsprojInfo {
            is_sdk_style: false,
            package_references: vec![],
            project_references: vec![],
            compile_items: vec!["d".to_string()],
        }
    );
}

#[test]
fn tags_mean_what_their_names_say() {
    assert_eq!(classify_tag("Project"), CsprojTag::Project);
    assert_eq!(classify_tag("PackageReference"), CsprojTag::PackageReference);
    assert_eq!(classify_tag("ProjectReference"), CsprojTag::ProjectReference);
    assert_eq!(classify_tag("Compile"), CsprojTag::Item);
    assert_eq!(classify_tag("None"), CsprojTag::Item);
    assert_eq!(classify_tag("none"), CsprojTag::Other);
    assert_eq!(classify_tag("Reference"), CsprojTag::Other);
}

#[test]
fn malformed_projects_yield_what_was_read_so_far() {
    let info = parse_csproj("<Project Sdk=\"x\"><Compile Include=\"a.cs\"/><Compile Include=\"b");
    assert!(info.is_sdk_style);
    assert_eq!(info.compile_items, vec!["a.cs".to_string()]);
    assert_eq!(parse_csproj(""), CsprojInfo::default());
}

#[test]
fn closing_tags_need_not_match() {
    let info = parse_csproj("<Project><Compile Include=\"a.cs\"></Other><Compile Include=\"b.cs\"/>");
    assert_eq!(info.compile_items, vec!["a.cs".to_string(), "b.cs".to_string()]);
}

#[test]
fn comments_hide_elements() {
    let info = parse_csproj("<Project><!-- <Compile Include=\"a.cs\"/> --></Project>");
    assert_eq!(info, CsprojInfo::default());
}

#[test]
fn elements_are_recorded_one_by_one() {
    let mut info = CsprojInfo::default();
    info.record(CsprojElement::Project { sdk: None });
    assert_eq!(info, CsprojInfo::default());
    info.record(CsprojElement::Project {
        sdk: Some(String::new()),
    });
    info.record(CsprojElement::PackageReference {
        name: Some("P".to_string()),
        version: None,
    });
    info.record(CsprojElement::PackageReference {
        name: None,
        version: Some("1".to_string()),
    });
    info.record(CsprojElement::ProjectReference {
        path: Some("..\\Q.csproj".to_string()),
    });
    info.record(CsprojElement::ProjectReference { path: None });
    info.record(CsprojElement::Item {
        path: Some("a\\b.cs".to_string()),
    });
    info.record(CsprojElement::Item { path: None });
    info.record(CsprojElement::Other);
    assert_eq!(
        info,
        CsprojInfo {
            is_sdk_style: true,
            package_references: vec![("P".to_string(), None)],
            project_references: vec!["../Q.csproj".to_string()],
            compile_items: vec!["a/b.cs".to_string()],
        }
    );
}

#[test]
fn assembly_definitions_need_a_name() {
    assert_eq!(parse_asmdef("{}"), None);
    assert_eq!(parse_asmdef("{ \"name\": 1 }"), None);
    assert_eq!(parse_asmdef("[\"name\"]"), None);
    assert_eq!(parse_asmdef("\"name\""), None);
    assert_eq!(parse_asmdef("{ \"name\": \"A\" "), None);
}

#[test]
fn assembly_references_are_the_strings_of_a_list() {
    assert_eq!(
        parse_asmdef("{ \"name\": \"\\u0041\", \"references\": [1, \"B\", null, [\"C\"], \"D\"] }"),
        Some(AsmdefInfo {
            name: "A".to_string(),
            references: vec!["B".to_string(), "D".to_string()],
        })
    );
    assert_eq!(
        parse_asmdef("{ \"references\": \"B\", \"name\": \"A\" }"),
        Some(AsmdefInfo {
            name: "A".to_string(),
            references: vec![],
        })
    );
}

#[test]
fn assembly_definitions_are_read_off_json_values() {
    let value = serde_json::Value::Object(serde_json::Map::from_iter([
        ("name".to_string(), serde_json::Value::from("A")),
        ("references".to_string(), serde_json::Value::from(vec!["B"])),
    ]));
    assert_eq!(
        asmdef_from_json(&value),
        Some(AsmdefInfo {
            name: "A".to_string(),
            references: vec!["B".to_string()],
        })
    );
    assert_eq!(asmdef_from_json(&serde_json::Value::Null), None);
}
