//! Parsers for the files a Solution Explorer tree is built from. They work on plain text: nothing
//! here touches a file system.

use crate::json::{
    json_as_array, json_as_str, json_document, json_from_str, json_get, json_view, JsonView,
};
use crate::text::{
    after_prefix, all_white_space, ascii_lowercase, ends_with, find_first, has_suffix,
    is_white_space, lemma_first_index, lemma_present_add, lemma_present_contains,
    lemma_present_push, lemma_split_add, lemma_split_once_at, lemma_split_whole, lemma_trimmed_push,
    lower_ascii_chars, opt_text, pieces, prefixes_are_followed_by_the_rest, present, same_text,
    split, split_chars, split_once, strip_prefix, texts, to_chars, to_text, trim_space, trimmed,
    trimming_takes_off_white_space,
};
use crate::xml::{
    attribute_value, attribute_value_of, pending_events, read_event, xml_events, xml_raw_attribute,
    xml_reader, xml_unescaped, XmlElement, XmlElementView, XmlEvent, XmlEventView,
};
use vstd::prelude::*;
use vstd::slice::slice_subrange;

verus! {

/// A project entry referenced by a `.sln` solution file.
#[derive(Debug, Clone, PartialEq, Eq)]
pub struct SolutionProject {
    pub name: String,
    /// Path to the `.csproj`, relative to the solution and normalized to `/` separators.
    pub csproj_rel: String,
}

/// References extracted from a `.csproj` file.
#[derive(Debug, Clone, PartialEq, Eq)]
pub struct CsprojInfo {
    /// Whether the project uses an MSBuild SDK (`<Project Sdk="...">`). SDK-style projects
    /// compile their directory tree via implicit globs; legacy projects (e.g. Unity-generated
    /// ones) list every file explicitly in [`Self::compile_items`].
    pub is_sdk_style: bool,
    /// NuGet package references as `(name, version)`; version is absent when not specified inline.
    pub package_references: Vec<(String, Option<String>)>,
    /// Paths of referenced projects, relative to the `.csproj` and normalized to `/`.
    pub project_references: Vec<String>,
    /// Explicit `<Compile Include>`/`<None Include>` item paths (relative to the `.csproj`),
    /// normalized to `/`. Empty for SDK-style projects that rely on implicit globs.
    pub compile_items: Vec<String>,
}

/// The relevant fields of a Unity `.asmdef` assembly definition file.
#[derive(Debug, Clone, PartialEq, Eq)]
pub struct AsmdefInfo {
    pub name: String,
    /// Referenced assembly names or GUID references (`GUID:...`), verbatim.
    pub references: Vec<String>,
}

/// The elements of a `.csproj` file that mean something to the parser.
#[derive(Debug, Clone, Copy, PartialEq, Eq)]
pub enum CsprojTag {
    Project,
    PackageReference,
    ProjectReference,
    /// `Compile` or `None`: a file that the project names explicitly.
    Item,
    /// Any other element.
    Other,
}

/// What the parser reads off one element of a `.csproj` file.
#[derive(Debug, Clone, PartialEq, Eq)]
pub enum CsprojElement {
    /// `<Project Sdk="...">`
    Project { sdk: Option<String> },
    /// `<PackageReference Include="..." Version="...">`
    PackageReference { name: Option<String>, version: Option<String> },
    /// `<ProjectReference Include="...">`
    ProjectReference { path: Option<String> },
    /// `<Compile Include="...">` or `<None Include="...">`
    Item { path: Option<String> },
    /// Any other element.
    Other,
}

// ---------------------------------------------------------------------------------------------
// Specifications
// ---------------------------------------------------------------------------------------------

/// A [`SolutionProject`] as the contracts see it.
pub struct SolutionProjectView {
    pub name: Seq<char>,
    pub csproj_rel: Seq<char>,
}

impl View for SolutionProject {
    type V = SolutionProjectView;

    open spec fn view(&self) -> SolutionProjectView {
        SolutionProjectView { name: self.name@, csproj_rel: self.csproj_rel@ }
    }
}

/// The projects held by a sequence of entries.
pub open spec fn project_views(projects: Seq<SolutionProject>) -> Seq<SolutionProjectView> {
    Seq::new(projects.len(), |i: int| projects[i]@)
}

/// `path` with `/` for every `\`.
pub open spec fn with_slashes(path: Seq<char>) -> Seq<char> {
    path.map_values(
        |c: char|
            if c == '\\' {
                '/'
            } else {
                c
            },
    )
}

/// The stretches of `s` between double quotes, taken pairwise from the start; a quote that is
/// never closed opens a stretch that runs to the end.
pub open spec fn quoted(s: Seq<char>) -> Seq<Seq<char>>
    decreases s.len(),
{
    match split_once(s, '"') {
        None => Seq::empty(),
        Some((_, opened)) => match split_once(opened, '"') {
            None => seq![opened],
            Some((field, rest)) => seq![field] + quoted(rest),
        },
    }
}

/// The project that a line of a solution file declares, if it declares one.
pub open spec fn declared_project(line: Seq<char>) -> Option<SolutionProjectView> {
    match strip_prefix(trimmed(line), "Project("@) {
        None => None,
        Some(rest) => match split_once(rest, '=') {
            None => None,
            Some((_, fields)) => if quoted(fields).len() >= 2 && is_csproj_path(
                with_slashes(quoted(fields)[1]),
            ) {
                Some(
                    SolutionProjectView {
                        name: quoted(fields)[0],
                        csproj_rel: with_slashes(quoted(fields)[1]),
                    },
                )
            } else {
                None
            },
        },
    }
}

/// Whether a path ends in `.csproj`, in capitals or small letters.
pub open spec fn is_csproj_path(path: Seq<char>) -> bool {
    ends_with(ascii_lowercase(path), ".csproj"@)
}

/// The projects declared by the lines of a solution file, in order.
pub open spec fn solution_projects(text: Seq<char>) -> Seq<SolutionProjectView> {
    present(split(text, '\n').map_values(|line: Seq<char>| declared_project(line)))
}

/// A [`CsprojInfo`] as the contracts see it.
#[verifier::ext_equal]
pub struct CsprojInfoView {
    pub is_sdk_style: bool,
    pub package_references: Seq<(Seq<char>, Option<Seq<char>>)>,
    pub project_references: Seq<Seq<char>>,
    pub compile_items: Seq<Seq<char>>,
}

/// The package names and versions held by a sequence of references.
pub open spec fn package_views(packages: Seq<(String, Option<String>)>) -> Seq<
    (Seq<char>, Option<Seq<char>>),
> {
    Seq::new(packages.len(), |i: int| (packages[i].0@, opt_text(packages[i].1)))
}

impl View for CsprojInfo {
    type V = CsprojInfoView;

    open spec fn view(&self) -> CsprojInfoView {
        CsprojInfoView {
            is_sdk_style: self.is_sdk_style,
            package_references: package_views(self.package_references@),
            project_references: texts(self.project_references@),
            compile_items: texts(self.compile_items@),
        }
    }
}

/// A project file with nothing in it.
pub open spec fn empty_csproj() -> CsprojInfoView {
    CsprojInfoView {
        is_sdk_style: false,
        package_references: Seq::empty(),
        project_references: Seq::empty(),
        compile_items: Seq::empty(),
    }
}

/// A [`CsprojElement`] as the contracts see it.
pub enum CsprojElementView {
    Project { sdk: Option<Seq<char>> },
    PackageReference { name: Option<Seq<char>>, version: Option<Seq<char>> },
    ProjectReference { path: Option<Seq<char>> },
    Item { path: Option<Seq<char>> },
    Other,
}

impl View for CsprojElement {
    type V = CsprojElementView;

    open spec fn view(&self) -> CsprojElementView {
        match self {
            CsprojElement::Project { sdk } => CsprojElementView::Project { sdk: opt_text(*sdk) },
            CsprojElement::PackageReference {
                name,
                version,
            } => CsprojElementView::PackageReference {
                name: opt_text(*name),
                version: opt_text(*version),
            },
            CsprojElement::ProjectReference { path } => CsprojElementView::ProjectReference {
                path: opt_text(*path),
            },
            CsprojElement::Item { path } => CsprojElementView::Item {
                path: opt_text(*path),
            },
            CsprojElement::Other => CsprojElementView::Other,
        }
    }
}

impl CsprojInfoView {
    /// What is known of the project once `element` has been read too.
    pub open spec fn with_element(self, element: CsprojElementView) -> CsprojInfoView {
        match element {
            CsprojElementView::Project { sdk: Some(_) } => CsprojInfoView {
                is_sdk_style: true,
                ..self
            },
            CsprojElementView::PackageReference {
                name: Some(name),
                version,
            } => CsprojInfoView {
                package_references: self.package_references.push((name, version)),
                ..self
            },
            CsprojElementView::ProjectReference { path: Some(path) } => CsprojInfoView {
                project_references: self.project_references.push(with_slashes(path)),
                ..self
            },
            CsprojElementView::Item { path: Some(path) } => CsprojInfoView {
                compile_items: self.compile_items.push(with_slashes(path)),
                ..self
            },
            _ => self,
        }
    }
}

/// What an element means, by the name of its tag.
pub open spec fn tag_of(name: Seq<char>) -> CsprojTag {
    if name == "Project"@ {
        CsprojTag::Project
    } else if name == "PackageReference"@ {
        CsprojTag::PackageReference
    } else if name == "ProjectReference"@ {
        CsprojTag::ProjectReference
    } else if name == "Compile"@ || name == "None"@ {
        CsprojTag::Item
    } else {
        CsprojTag::Other
    }
}

/// What the parser reads off an XML element: what it means goes by the tag name, and the details
/// are the values of its attributes.
pub open spec fn element_read(element: XmlElementView) -> CsprojElementView {
    match tag_of(element.name) {
        CsprojTag::Project => CsprojElementView::Project {
            sdk: attribute_value_of(element, "Sdk"@),
        },
        CsprojTag::PackageReference => CsprojElementView::PackageReference {
            name: attribute_value_of(element, "Include"@),
            version: attribute_value_of(element, "Version"@),
        },
        CsprojTag::ProjectReference => CsprojElementView::ProjectReference {
            path: attribute_value_of(element, "Include"@),
        },
        CsprojTag::Item => CsprojElementView::Item {
            path: attribute_value_of(element, "Include"@),
        },
        CsprojTag::Other => CsprojElementView::Other,
    }
}

/// What a run of XML events says of a project.
pub open spec fn csproj_of_events(events: Seq<XmlEventView>) -> CsprojInfoView
    decreases events.len(),
{
    if events.len() == 0 {
        empty_csproj()
    } else {
        match events.last().element() {
            Some(element) => csproj_of_events(events.drop_last()).with_element(
                element_read(element),
            ),
            None => csproj_of_events(events.drop_last()),
        }
    }
}

/// What the text of a `.csproj` file says of the project. Closing tags are taken as they come.
pub open spec fn csproj_of_text(text: Seq<char>) -> CsprojInfoView {
    csproj_of_events(xml_events(text, false))
}

/// An [`AsmdefInfo`] as the contracts see it.
pub struct AsmdefInfoView {
    pub name: Seq<char>,
    pub references: Seq<Seq<char>>,
}

impl View for AsmdefInfo {
    type V = AsmdefInfoView;

    open spec fn view(&self) -> AsmdefInfoView {
        AsmdefInfoView { name: self.name@, references: texts(self.references@) }
    }
}

/// The text of a JSON string.
pub open spec fn json_text(value: JsonView) -> Option<Seq<char>> {
    match value {
        JsonView::Text(text) => Some(text),
        _ => None,
    }
}

/// The member `key` of a JSON object.
pub open spec fn json_member(value: JsonView, key: Seq<char>) -> Option<JsonView> {
    match value {
        JsonView::Object(members) => if members.contains_key(key) {
            Some(members[key])
        } else {
            None
        },
        _ => None,
    }
}

/// The strings among the elements of the array `references`; none when it is absent or not an
/// array.
pub open spec fn asmdef_references(document: JsonView) -> Seq<Seq<char>> {
    match json_member(document, "references"@) {
        Some(JsonView::List(elements)) => present(
            elements.map_values(|element: JsonView| json_text(element)),
        ),
        _ => Seq::empty(),
    }
}

/// The assembly definition a JSON document stands for: none unless its `name` is a string.
pub open spec fn asmdef_of_json(document: JsonView) -> Option<AsmdefInfoView> {
    match json_member(document, "name"@) {
        Some(JsonView::Text(name)) => Some(
            AsmdefInfoView { name, references: asmdef_references(document) },
        ),
        _ => None,
    }
}

// ---------------------------------------------------------------------------------------------
// Solution files
// ---------------------------------------------------------------------------------------------

/// Replaces every `\` of a path by `/`.
pub fn normalize_separators(path: &str) -> (normalized: String)
    ensures
        normalized@ == with_slashes(path@),
{
    let chars = to_chars(path);
    let mut normalized: Vec<char> = Vec::new();
    for i in 0..chars.len()
        invariant
            chars@ == path@,
            normalized@ == with_slashes(path@).take(i as int),
    {
        normalized.push(
            if chars[i] == '\\' {
                '/'
            } else {
                chars[i]
            },
        );
    }
    assert(with_slashes(path@).take(path@.len() as int) == with_slashes(path@));
    to_text(normalized.as_slice())
}

/// Extracts the sequence of double-quoted substrings from a line.
pub fn quoted_fields(input: &str) -> (fields: Vec<String>)
    ensures
        texts(fields@) == quoted(input@),
{
    let chars = to_chars(input);
    let mut rest: &[char] = chars.as_slice();
    let mut fields: Vec<String> = Vec::new();
    assert(texts(fields@) + quoted(input@) == quoted(input@));
    loop
        invariant
            texts(fields@) + quoted(rest@) == quoted(input@),
        decreases rest@.len(),
    {
        let open = find_first(rest, '"');
        if open == rest.len() {
            assert(texts(fields@) + quoted(rest@) == texts(fields@));
            return fields;
        }
        let opened = slice_subrange(rest, open + 1, rest.len());
        let close = find_first(opened, '"');
        let ghost before = fields@;
        fields.push(to_text(slice_subrange(opened, 0, close)));
        if close == opened.len() {
            proof {
                assert(opened@.subrange(0, close as int) == opened@);
                assert(texts(fields@) == texts(before) + seq![opened@]);
            }
            return fields;
        }
        proof {
            let field = opened@.take(close as int);
            let after = opened@.skip(close + 1);
            assert(texts(fields@) == texts(before) + seq![field]);
            assert(texts(fields@) + quoted(after) == texts(before) + (seq![field] + quoted(after)));
        }
        rest = slice_subrange(opened, close + 1, opened.len());
    }
}

/// The project that a line of a solution file declares, if it declares one.
fn parse_project_line(line: &[char]) -> (project: Option<SolutionProject>)
    ensures
        match declared_project(line@) {
            Some(view) => project is Some && project->0@ == view,
            None => project is None,
        },
{
    let line = trim_space(line);
    let rest = match after_prefix(line, to_chars("Project(").as_slice()) {
        Some(rest) => rest,
        None => return None,
    };
    let equals = find_first(rest, '=');
    if equals == rest.len() {
        return None;
    }
    // After the `=` come three quoted fields: name, path, project guid.
    let fields = quoted_fields(
        to_text(slice_subrange(rest, equals + 1, rest.len())).as_str(),
    );
    if fields.len() < 2 {
        return None;
    }
    assert(texts(fields@)[0] == fields@[0]@ && texts(fields@)[1] == fields@[1]@);
    let csproj_rel = normalize_separators(fields[1].as_str());
    let lower = lower_ascii_chars(to_chars(csproj_rel.as_str()).as_slice());
    if !has_suffix(lower.as_slice(), to_chars(".csproj").as_slice()) {
        return None;
    }
    Some(SolutionProject { name: fields[0].clone(), csproj_rel })
}

/// Parses the `Project(...) = "Name", "path.csproj", "{guid}"` lines of a `.sln` file.
/// Solution folders (whose path is a plain name rather than a `.csproj`) are skipped.
pub fn parse_solution(text: &str) -> (projects: Vec<SolutionProject>)
    ensures
        project_views(projects@) == solution_projects(text@),
{
    let chars = to_chars(text);
    let lines = split_chars(chars.as_slice(), '\n');
    let ghost declared = split(text@, '\n').map_values(
        |line: Seq<char>| declared_project(line),
    );
    let mut projects: Vec<SolutionProject> = Vec::new();
    assert(project_views(projects@) == present(declared.take(0)));
    for i in 0..lines.len()
        invariant
            pieces(lines@) == split(text@, '\n'),
            declared == split(text@, '\n').map_values(|line: Seq<char>| declared_project(line)),
            project_views(projects@) == present(declared.take(i as int)),
    {
        let ghost before = projects@;
        let project = parse_project_line(lines[i].as_slice());
        proof {
            assert(pieces(lines@)[i as int] == lines@[i as int]@);
            assert(declared.take(i + 1) == declared.take(i as int).push(declared[i as int]));
            lemma_present_push(declared.take(i as int), declared[i as int]);
        }
        if let Some(project) = project {
            projects.push(project);
            assert(project_views(projects@) == project_views(before).push(project@));
        }
    }
    assert(declared.take(lines@.len() as int) == declared);
    projects
}

// ---------------------------------------------------------------------------------------------
// Project files
// ---------------------------------------------------------------------------------------------

impl Default for CsprojInfo {
    fn default() -> (info: CsprojInfo)
        ensures
            info@ == empty_csproj(),
    {
        let info = CsprojInfo {
            is_sdk_style: false,
            package_references: Vec::new(),
            project_references: Vec::new(),
            compile_items: Vec::new(),
        };
        assert(info@ =~= empty_csproj());
        info
    }
}

impl CsprojInfo {
    /// Takes note of one element. Elements without the attribute that says what they refer to
    /// (such as `Remove`/`Update` operations) leave no trace.
    pub fn record(&mut self, element: CsprojElement)
        ensures
            final(self)@ == old(self)@.with_element(element@),
    {
        let ghost before = self@;
        match element {
            CsprojElement::Project { sdk } => {
                if sdk.is_some() {
                    self.is_sdk_style = true;
                }
            },
            CsprojElement::PackageReference { name, version } => {
                if let Some(name) = name {
                    let ghost package = (name@, opt_text(version));
                    self.package_references.push((name, version));
                    assert(self@.package_references == before.package_references.push(package));
                }
            },
            CsprojElement::ProjectReference { path } => {
                if let Some(path) = path {
                    self.project_references.push(normalize_separators(path.as_str()));
                    assert(self@.project_references == before.project_references.push(
                        with_slashes(path@),
                    ));
                }
            },
            CsprojElement::Item { path } => {
                if let Some(path) = path {
                    self.compile_items.push(normalize_separators(path.as_str()));
                    assert(self@.compile_items == before.compile_items.push(with_slashes(path@)));
                }
            },
            CsprojElement::Other => {},
        }
    }
}

/// What an element means, by the name of its tag.
pub fn classify_tag(name: &str) -> (tag: CsprojTag)
    ensures
        tag == tag_of(name@),
{
    if same_text(name, "Project") {
        CsprojTag::Project
    } else if same_text(name, "PackageReference") {
        CsprojTag::PackageReference
    } else if same_text(name, "ProjectReference") {
        CsprojTag::ProjectReference
    } else if same_text(name, "Compile") || same_text(name, "None") {
        CsprojTag::Item
    } else {
        CsprojTag::Other
    }
}

/// Reads an XML element as an element of a `.csproj` file.
fn read_element(element: &XmlElement) -> (read: CsprojElement)
    ensures
        read@ == element_read(element@),
{
    match classify_tag(element.name.as_str()) {
        CsprojTag::Project => CsprojElement::Project { sdk: attribute_value(element, "Sdk") },
        CsprojTag::PackageReference => CsprojElement::PackageReference {
            name: attribute_value(element, "Include"),
            version: attribute_value(element, "Version"),
        },
        CsprojTag::ProjectReference => CsprojElement::ProjectReference {
            path: attribute_value(element, "Include"),
        },
        CsprojTag::Item => CsprojElement::Item { path: attribute_value(element, "Include") },
        CsprojTag::Other => CsprojElement::Other,
    }
}

/// Parses `PackageReference`/`ProjectReference`/`Compile`/`None` elements out of a `.csproj` file.
/// A malformed file yields whatever was read up to the point where it breaks off.
pub fn parse_csproj(text: &str) -> (info: CsprojInfo)
    ensures
        info@ == csproj_of_text(text@),
{
    let mut info = CsprojInfo::default();
    let mut reader = xml_reader(text, false);
    let ghost events = xml_events(text@, false);
    let ghost mut read: int = 0;
    assert(events.skip(0) == events);
    loop
        invariant
            events == xml_events(text@, false),
            0 <= read < events.len(),
            pending_events(reader) == events.skip(read),
            info@ == csproj_of_events(events.take(read)),
        decreases events.len() - read,
    {
        let event = read_event(&mut reader);
        proof {
            assert(events.take(read + 1).drop_last() == events.take(read));
            assert(events.skip(read).drop_first() == events.skip(read + 1));
        }
        match event {
            XmlEvent::Start(element) | XmlEvent::Empty(element) => {
                info.record(read_element(&element));
            },
            XmlEvent::Other => {},
            XmlEvent::Eof | XmlEvent::Malformed => {
                assert(events.take(read + 1) == events);
                return info;
            },
        }
        proof {
            read = read + 1;
        }
    }
}

// ---------------------------------------------------------------------------------------------
// Assembly definitions
// ---------------------------------------------------------------------------------------------

/// The assembly definition a JSON value stands for: `None` unless its `name` is a string.
pub fn asmdef_from_json(value: &serde_json::Value) -> (info: Option<AsmdefInfo>)
    ensures
        match asmdef_of_json(json_view(*value)) {
            Some(view) => info is Some && info->0@ == view,
            None => info is None,
        },
{
    let name = match json_get(value, "name") {
        Some(name) => match json_as_str(name) {
            Some(name) => name.to_owned(),
            None => return None,
        },
        None => return None,
    };
    let mut references: Vec<String> = Vec::new();
    let listed = match json_get(value, "references") {
        Some(listed) => json_as_array(listed),
        None => None,
    };
    assert(texts(references@) == Seq::<Seq<char>>::empty());
    if let Some(elements) = listed {
        let ghost views = json_member(json_view(*value), "references"@)->0->List_0;
        let ghost found = views.map_values(|element: JsonView| json_text(element));
        assert(present(found.take(0)) == texts(references@));
        for i in 0..elements.len()
            invariant
                found == views.map_values(|element: JsonView| json_text(element)),
                elements@.len() == views.len(),
                forall|j: int| 0 <= j < views.len() ==> json_view(#[trigger] elements@[j]) == views[j],
                texts(references@) == present(found.take(i as int)),
        {
            let ghost before = references@;
            let element = json_as_str(&elements[i]);
            proof {
                assert(json_view(elements@[i as int]) == views[i as int]);
                assert(found.take(i + 1) == found.take(i as int).push(found[i as int]));
                lemma_present_push(found.take(i as int), found[i as int]);
            }
            if let Some(element) = element {
                references.push(element.to_owned());
                assert(texts(references@) == texts(before).push(element@));
            }
        }
        assert(found.take(views.len() as int) == found);
    }
    Some(AsmdefInfo { name, references })
}

/// Parses a Unity `.asmdef` (JSON). Returns `None` when the JSON is invalid or has no `name`.
pub fn parse_asmdef(text: &str) -> (info: Option<AsmdefInfo>)
    ensures
        match json_document(text@) {
            None => info is None,
            Some(document) => match asmdef_of_json(document) {
                Some(view) => info is Some && info->0@ == view,
                None => info is None,
            },
        },
{
    match json_from_str(text) {
        Ok(value) => asmdef_from_json(&value),
        Err(_) => None,
    }
}

// ---------------------------------------------------------------------------------------------
// Laws
// ---------------------------------------------------------------------------------------------

/// Normalized separators are slashes: no backslash is left, every other character is, and
/// normalizing again changes nothing.
pub proof fn normalized_paths_have_no_backslash(path: Seq<char>)
    ensures
        !with_slashes(path).contains('\\'),
        with_slashes(path).len() == path.len(),
        with_slashes(with_slashes(path)) == with_slashes(path),
{
    assert(with_slashes(with_slashes(path)) =~= with_slashes(path));
}

/// A solution file is read line by line: the projects of two texts, one after the other on lines
/// of their own, are those of the first followed by those of the second.
pub proof fn solutions_are_read_line_by_line(first: Seq<char>, second: Seq<char>)
    ensures
        solution_projects(first.push('\n') + second) == solution_projects(first)
            + solution_projects(second),
{
    let declared = |line: Seq<char>| declared_project(line);
    lemma_split_add(first, '\n', second);
    assert(split(first.push('\n') + second, '\n').map_values(declared) == split(
        first,
        '\n',
    ).map_values(declared) + split(second, '\n').map_values(declared));
    lemma_present_add(
        split(first, '\n').map_values(declared),
        split(second, '\n').map_values(declared),
    );
}

/// It makes no difference to a line of a solution file whether it ends in a carriage return.
pub proof fn carriage_returns_make_no_difference(line: Seq<char>)
    ensures
        declared_project(line.push('\r')) == declared_project(line),
{
    lemma_trimmed_push(line, '\r');
}

/// Every project of a solution names a `.csproj` file, with `/` between its directories; solution
/// folders, whose path is a plain name, are not among them.
pub proof fn solutions_list_project_files(text: Seq<char>, project: SolutionProjectView)
    requires
        solution_projects(text).contains(project),
    ensures
        is_csproj_path(project.csproj_rel),
        !project.csproj_rel.contains('\\'),
{
    let declared = split(text, '\n').map_values(|line: Seq<char>| declared_project(line));
    lemma_present_contains(declared, project);
    let i = choose|i: int| 0 <= i < declared.len() && declared[i] == Some(project);
    let rest = strip_prefix(trimmed(split(text, '\n')[i]), "Project("@)->0;
    let (_, fields) = split_once(rest, '=')->0;
    normalized_paths_have_no_backslash(quoted(fields)[1]);
}

/// The stretches between quotes hold no quotes.
pub proof fn quoted_stretches_hold_no_quotes(s: Seq<char>, i: int)
    requires
        0 <= i < quoted(s).len(),
    ensures
        !quoted(s)[i].contains('"'),
    decreases s.len(),
{
    let (_, opened) = split_once(s, '"')->0;
    lemma_first_index(s, '"');
    lemma_first_index(opened, '"');
    if let Some((field, rest)) = split_once(opened, '"') {
        if i > 0 {
            quoted_stretches_hold_no_quotes(rest, i - 1);
        }
    }
}

/// An element that does not say what it refers to leaves no trace, nor does one that means
/// nothing here.
pub proof fn nameless_elements_leave_no_trace(
    info: CsprojInfoView,
    version: Option<Seq<char>>,
)
    ensures
        info.with_element(CsprojElementView::Project { sdk: None }) == info,
        info.with_element(CsprojElementView::PackageReference { name: None, version }) == info,
        info.with_element(CsprojElementView::ProjectReference { path: None }) == info,
        info.with_element(CsprojElementView::Item { path: None }) == info,
        info.with_element(CsprojElementView::Other) == info,
{
}

/// A malformed project file yields whatever was read before the error.
pub proof fn malformed_projects_keep_what_was_read(events: Seq<XmlEventView>)
    ensures
        csproj_of_events(events.push(XmlEventView::Malformed)) == csproj_of_events(events),
        csproj_of_events(events.push(XmlEventView::Eof)) == csproj_of_events(events),
{
    assert(events.push(XmlEventView::Malformed).drop_last() == events);
    assert(events.push(XmlEventView::Eof).drop_last() == events);
}

/// Reading on only adds: what a longer run of events says of a project starts with what the
/// shorter one says.
pub proof fn reading_on_only_adds(events: Seq<XmlEventView>, more: Seq<XmlEventView>)
    ensures
        ({
            let short = csproj_of_events(events);
            let long = csproj_of_events(events + more);
            &&& short.is_sdk_style ==> long.is_sdk_style
            &&& short.package_references.is_prefix_of(long.package_references)
            &&& short.project_references.is_prefix_of(long.project_references)
            &&& short.compile_items.is_prefix_of(long.compile_items)
        }),
    decreases more.len(),
{
    if more.len() == 0 {
        assert(events + more == events);
    } else {
        assert((events + more).drop_last() == events + more.drop_last());
        reading_on_only_adds(events, more.drop_last());
    }
}

/// Whether an event is a `Project` element with an `Sdk` attribute.
pub open spec fn names_an_sdk(event: XmlEventView) -> bool {
    event.element() matches Some(element) && element.name == "Project"@ && attribute_value_of(
        element,
        "Sdk"@,
    ) is Some
}

/// A project is SDK-style exactly when some `Project` element of its file names an SDK.
pub proof fn sdk_style_means_an_sdk_is_named(events: Seq<XmlEventView>)
    ensures
        csproj_of_events(events).is_sdk_style <==> exists|i: int|
            0 <= i < events.len() && names_an_sdk(#[trigger] events[i]),
    decreases events.len(),
{
    if events.len() > 0 {
        let rest = events.drop_last();
        sdk_style_means_an_sdk_is_named(rest);
        if csproj_of_events(rest).is_sdk_style {
            let i = choose|i: int| 0 <= i < rest.len() && names_an_sdk(#[trigger] rest[i]);
            assert(names_an_sdk(events[i]));
        }
        if names_an_sdk(events.last()) {
            assert(names_an_sdk(events[events.len() - 1]));
        }
        if exists|i: int| 0 <= i < events.len() && names_an_sdk(#[trigger] events[i]) {
            let i = choose|i: int| 0 <= i < events.len() && names_an_sdk(#[trigger] events[i]);
            if i < rest.len() {
                assert(names_an_sdk(rest[i]));
            }
        }
    }
}

/// Whether none of the paths holds a backslash.
pub open spec fn no_backslashes(paths: Seq<Seq<char>>) -> bool {
    forall|i: int| 0 <= i < paths.len() ==> !(#[trigger] paths[i]).contains('\\')
}

/// Paths read off a project file have `/` between their directories.
pub proof fn projects_refer_with_slashes(events: Seq<XmlEventView>)
    ensures
        no_backslashes(csproj_of_events(events).project_references),
        no_backslashes(csproj_of_events(events).compile_items),
    decreases events.len(),
{
    if events.len() > 0 {
        let before = csproj_of_events(events.drop_last());
        let after = csproj_of_events(events);
        projects_refer_with_slashes(events.drop_last());
        assert forall|path: Seq<char>| !(#[trigger] with_slashes(path)).contains('\\') by {
            normalized_paths_have_no_backslash(path);
        }
        assert forall|i: int| 0 <= i < after.project_references.len() implies !(
        #[trigger] after.project_references[i]).contains('\\') by {
            if i < before.project_references.len() {
                assert(after.project_references[i] == before.project_references[i]);
            }
        }
        assert forall|i: int| 0 <= i < after.compile_items.len() implies !(
        #[trigger] after.compile_items[i]).contains('\\') by {
            if i < before.compile_items.len() {
                assert(after.compile_items[i] == before.compile_items[i]);
            }
        }
    }
}

/// Normalizing separators goes character by character: a backslash becomes a slash, and every other
/// character stays.
pub proof fn separators_change_character_by_character(path: Seq<char>, i: int)
    requires
        0 <= i < path.len(),
    ensures
        with_slashes(path).len() == path.len(),
        path[i] == '\\' ==> with_slashes(path)[i] == '/',
        path[i] != '\\' ==> with_slashes(path)[i] == path[i],
{
}

/// Quoted fields are read one after the other: what stands between two quotes is a field, what
/// stands before them is passed over, and what comes after them is read on. Without a second quote
/// the field runs to the end; without a first there is none.
pub proof fn quoted_fields_are_read_in_turn(before: Seq<char>, field: Seq<char>, rest: Seq<char>)
    requires
        !before.contains('"'),
        !field.contains('"'),
    ensures
        quoted(before.push('"') + (field.push('"') + rest)) == seq![field] + quoted(rest),
        quoted(before.push('"') + field) == seq![field],
        quoted(before) == Seq::<Seq<char>>::empty(),
{
    lemma_split_once_at(before, '"', field.push('"') + rest);
    lemma_split_once_at(field, '"', rest);
    lemma_split_once_at(before, '"', field);
    lemma_first_index(before, '"');
    lemma_first_index(field, '"');
}

/// A path is that of a project file when it ends in `.csproj`, in capitals or small letters.
pub proof fn project_files_end_in_csproj(path: Seq<char>)
    ensures
        is_csproj_path(path) <==> exists|stem: Seq<char>, extension: Seq<char>|
            path == #[trigger] (stem + extension) && ascii_lowercase(extension) == ".csproj"@,
{
    let lower = ascii_lowercase(path);
    reveal_strlit(".csproj");
    let n = ".csproj"@.len() as int;
    if is_csproj_path(path) {
        let stem = path.take(path.len() - n);
        let extension = path.skip(path.len() - n);
        assert(path == stem + extension);
        assert(ascii_lowercase(extension) == lower.skip(lower.len() - n));
    }
    if exists|stem: Seq<char>, extension: Seq<char>|
        path == #[trigger] (stem + extension) && ascii_lowercase(extension) == ".csproj"@ {
        let (stem, extension) = choose|stem: Seq<char>, extension: Seq<char>|
            path == #[trigger] (stem + extension) && ascii_lowercase(extension) == ".csproj"@;
        assert(extension.len() == ascii_lowercase(extension).len());
        assert(lower.skip(lower.len() - n) == ascii_lowercase(extension));
    }
}

/// What a line of a solution file declares: a project under the first quoted field after the `=`,
/// at the second one with slashes, when that is the path of a project file; nothing otherwise.
/// White space around the line, and what follows the second field, make no difference.
pub proof fn project_lines_declare_their_fields(
    front: Seq<char>,
    head: Seq<char>,
    gap: Seq<char>,
    name: Seq<char>,
    second_gap: Seq<char>,
    path: Seq<char>,
    tail: Seq<char>,
    back: Seq<char>,
)
    requires
        all_white_space(front),
        all_white_space(back),
        !head.contains('='),
        !gap.contains('"'),
        !name.contains('"'),
        !second_gap.contains('"'),
        !path.contains('"'),
        tail.len() > 0 ==> !is_white_space(tail.last()),
    ensures
        ({
            let line = "Project("@ + (head.push('=') + (gap.push('"') + (name.push('"') + (
            second_gap.push('"') + (path.push('"') + tail)))));
            let declared = declared_project(front + line + back);
            &&& is_csproj_path(with_slashes(path)) ==> (declared matches Some(project)
                && project.name == name && project.csproj_rel == with_slashes(path))
            &&& !is_csproj_path(with_slashes(path)) ==> declared is None
        }),
{
    reveal_strlit("Project(");
    let after_path = path.push('"') + tail;
    let second = second_gap.push('"') + after_path;
    let fields = gap.push('"') + (name.push('"') + second);
    let rest = head.push('=') + fields;
    let line = "Project("@ + rest;
    assert(line[0] == 'P');
    assert(line.last() == after_path.last());
    if tail.len() > 0 {
        assert(after_path.last() == tail.last());
    } else {
        assert(after_path.last() == '"');
    }
    trimming_takes_off_white_space(front, line, back);
    prefixes_are_followed_by_the_rest(line, "Project("@, rest);
    lemma_split_once_at(head, '=', fields);
    quoted_fields_are_read_in_turn(gap, name, second);
    quoted_fields_are_read_in_turn(second_gap, path, tail);
    let found = quoted(fields);
    assert(found == seq![name] + (seq![path] + quoted(tail)));
    assert(found.len() >= 2);
    assert(found[0] == name);
    assert(found[1] == path);
}

/// Lines that do not start with `Project(` declare nothing, nor do those without an `=` or without
/// two quoted fields after it.
pub proof fn other_lines_declare_nothing(
    front: Seq<char>,
    line: Seq<char>,
    back: Seq<char>,
    rest: Seq<char>,
    head: Seq<char>,
    fields: Seq<char>,
)
    requires
        all_white_space(front),
        all_white_space(back),
        line.len() > 0 ==> !is_white_space(line[0]) && !is_white_space(line.last()),
        ({
            ||| forall|any: Seq<char>| line != #[trigger] ("Project("@ + any)
            ||| line == "Project("@ + rest && !rest.contains('=')
            ||| line == "Project("@ + (head.push('=') + fields) && !head.contains('=') && quoted(
                fields,
            ).len() < 2
        }),
    ensures
        declared_project(front + line + back) is None,
{
    trimming_takes_off_white_space(front, line, back);
    if line == "Project("@ + rest && !rest.contains('=') {
        prefixes_are_followed_by_the_rest(line, "Project("@, rest);
        lemma_first_index(rest, '=');
    } else if line == "Project("@ + (head.push('=') + fields) && !head.contains('=') {
        prefixes_are_followed_by_the_rest(line, "Project("@, head.push('=') + fields);
        lemma_split_once_at(head, '=', fields);
    } else if let Some(any) = strip_prefix(line, "Project("@) {
        prefixes_are_followed_by_the_rest(line, "Project("@, any);
    }
}

/// A single line of a solution file gives the project that it declares, if it declares one. (With
/// [`solutions_are_read_line_by_line`] this settles every solution file.)
pub proof fn a_line_gives_what_it_declares(line: Seq<char>)
    requires
        !line.contains('\n'),
    ensures
        solution_projects(line) == match declared_project(line) {
            Some(project) => seq![project],
            None => Seq::empty(),
        },
{
    lemma_split_whole(line, '\n');
    let declared = split(line, '\n').map_values(|line: Seq<char>| declared_project(line));
    assert(declared == Seq::<Option<SolutionProjectView>>::empty().push(declared_project(line)));
    lemma_present_push(Seq::<Option<SolutionProjectView>>::empty(), declared_project(line));
    assert(present(Seq::<Option<SolutionProjectView>>::empty())
        == Seq::<SolutionProjectView>::empty());
}

/// A project file is read event by event: what two runs of events name, one after the other, is
/// what the first names followed by what the second names, and either may name the SDK.
pub proof fn projects_are_read_event_by_event(first: Seq<XmlEventView>, second: Seq<XmlEventView>)
    ensures
        ({
            let all = csproj_of_events(first + second);
            let a = csproj_of_events(first);
            let b = csproj_of_events(second);
            &&& all.is_sdk_style == (a.is_sdk_style || b.is_sdk_style)
            &&& all.package_references == a.package_references + b.package_references
            &&& all.project_references == a.project_references + b.project_references
            &&& all.compile_items == a.compile_items + b.compile_items
        }),
    decreases second.len(),
{
    let a = csproj_of_events(first);
    if second.len() == 0 {
        assert(first + second == first);
        assert(a.package_references + Seq::empty() == a.package_references);
        assert(a.project_references + Seq::empty() == a.project_references);
        assert(a.compile_items + Seq::empty() == a.compile_items);
    } else {
        assert((first + second).drop_last() == first + second.drop_last());
        projects_are_read_event_by_event(first, second.drop_last());
        let all = csproj_of_events(first + second);
        let b = csproj_of_events(second);
        assert(all.package_references =~= a.package_references + b.package_references);
        assert(all.project_references =~= a.project_references + b.project_references);
        assert(all.compile_items =~= a.compile_items + b.compile_items);
    }
}

/// The list of a value that may be there.
pub open spec fn listed<A>(value: Option<A>) -> Seq<A> {
    match value {
        Some(value) => seq![value],
        None => Seq::empty(),
    }
}

/// What a single element adds to a project file: a `Project` may name the SDK, a
/// `PackageReference` a package with its version, a `ProjectReference` a project and a `Compile`
/// or `None` an item, the latter two with slashes. Each adds nothing else, and other elements and
/// events add nothing at all. (With [`projects_are_read_event_by_event`] this settles every run of
/// events.)
pub proof fn an_element_adds_what_it_names(element: XmlElementView, event: XmlEventView)
    requires
        event == XmlEventView::Start(element) || event == XmlEventView::Empty(element),
    ensures
        ({
            let info = csproj_of_events(seq![event]);
            let named = attribute_value_of(element, "Include"@);
            let version = attribute_value_of(element, "Version"@);
            let slashed = match named {
                Some(path) => Some(with_slashes(path)),
                None => None,
            };
            &&& info.is_sdk_style <==> element.name == "Project"@ && attribute_value_of(
                element,
                "Sdk"@,
            ) is Some
            &&& info.package_references == (if element.name == "PackageReference"@ {
                listed(
                    match named {
                        Some(name) => Some((name, version)),
                        None => None,
                    },
                )
            } else {
                Seq::empty()
            })
            &&& info.project_references == (if element.name == "ProjectReference"@ {
                listed(slashed)
            } else {
                Seq::empty()
            })
            &&& info.compile_items == (if element.name == "Compile"@ || element.name == "None"@ {
                listed(slashed)
            } else {
                Seq::empty()
            })
        }),
        csproj_of_events(Seq::empty()) == csproj_of_events(seq![XmlEventView::Other]),
        csproj_of_events(Seq::empty()) == csproj_of_events(seq![XmlEventView::Eof]),
        csproj_of_events(Seq::empty()) == csproj_of_events(seq![XmlEventView::Malformed]),
        csproj_of_events(Seq::empty()).package_references.len() == 0,
        csproj_of_events(Seq::empty()).project_references.len() == 0,
        csproj_of_events(Seq::empty()).compile_items.len() == 0,
        !csproj_of_events(Seq::empty()).is_sdk_style,
{
    lemma_tags_differ();
    let none = Seq::<XmlEventView>::empty();
    assert(seq![event].drop_last() == none);
    assert(seq![event].last() == event);
    let info = csproj_of_events(seq![event]);
    assert(event.element() == Some(element));
    assert(csproj_of_events(none) == empty_csproj());
    assert(info == csproj_of_events(none).with_element(element_read(element)));
    assert forall|a: Seq<char>| Seq::<Seq<char>>::empty().push(a) == #[trigger] seq![a] by {}
    assert forall|a: (Seq<char>, Option<Seq<char>>)|
        Seq::<(Seq<char>, Option<Seq<char>>)>::empty().push(a) == #[trigger] seq![a] by {}
    assert(seq![XmlEventView::Other].drop_last() == none);
    assert(seq![XmlEventView::Eof].drop_last() == none);
    assert(seq![XmlEventView::Malformed].drop_last() == none);
}

proof fn lemma_tags_differ()
    ensures
        "Project"@ != "PackageReference"@,
        "Project"@ != "ProjectReference"@,
        "Project"@ != "Compile"@,
        "Project"@ != "None"@,
        "PackageReference"@ != "ProjectReference"@,
        "PackageReference"@ != "Compile"@,
        "PackageReference"@ != "None"@,
        "ProjectReference"@ != "Compile"@,
        "ProjectReference"@ != "None"@,
{
    reveal_strlit("Project");
    reveal_strlit("PackageReference");
    reveal_strlit("ProjectReference");
    reveal_strlit("Compile");
    reveal_strlit("None");
    assert("Project"@.len() == 7 && "PackageReference"@.len() == 16 && "ProjectReference"@.len()
        == 16 && "Compile"@.len() == 7 && "None"@.len() == 4);
    assert("Project"@[0] == 'P' && "Compile"@[0] == 'C');
    assert("PackageReference"@[1] == 'a' && "ProjectReference"@[1] == 'r');
}

/// What the event names, if it opens one of the two elements with a readable `Include`.
pub open spec fn named_by(event: XmlEventView, tag: Seq<char>, other_tag: Seq<char>) -> Option<
    Seq<char>,
> {
    match event.element() {
        Some(element) => if element.name == tag || element.name == other_tag {
            attribute_value_of(element, "Include"@)
        } else {
            None
        },
        None => None,
    }
}

/// What the events name, one by one.
pub open spec fn each_named(events: Seq<XmlEventView>, tag: Seq<char>, other_tag: Seq<char>) -> Seq<
    Option<Seq<char>>,
> {
    Seq::new(events.len(), |i: int| named_by(events[i], tag, other_tag))
}

/// A project file lists one reference for each `ProjectReference` that names one, in order and with
/// slashes; likewise one item for each `Compile` or `None`, and one package for each
/// `PackageReference`.
pub proof fn projects_list_every_reference(events: Seq<XmlEventView>)
    ensures
        ({
            let info = csproj_of_events(events);
            let projects = present(each_named(events, "ProjectReference"@, "ProjectReference"@));
            let items = present(each_named(events, "Compile"@, "None"@));
            let packages = present(each_named(events, "PackageReference"@, "PackageReference"@));
            &&& info.project_references == Seq::new(
                projects.len(),
                |k: int| with_slashes(projects[k]),
            )
            &&& info.compile_items == Seq::new(items.len(), |k: int| with_slashes(items[k]))
            &&& info.package_references.len() == packages.len()
            &&& forall|k: int|
                0 <= k < packages.len() ==> (#[trigger] info.package_references[k]).0 == packages[k]
        }),
    decreases events.len(),
{
    let projects = each_named(events, "ProjectReference"@, "ProjectReference"@);
    let items = each_named(events, "Compile"@, "None"@);
    let packages = each_named(events, "PackageReference"@, "PackageReference"@);
    if events.len() == 0 {
        assert(present(projects) == Seq::<Seq<char>>::empty());
        assert(present(items) == Seq::<Seq<char>>::empty());
        assert(present(packages) == Seq::<Seq<char>>::empty());
    } else {
        let rest = events.drop_last();
        let last = events.last();
        lemma_tags_differ();
        projects_list_every_reference(rest);
        assert(projects.drop_last() == each_named(rest, "ProjectReference"@, "ProjectReference"@));
        assert(items.drop_last() == each_named(rest, "Compile"@, "None"@));
        assert(packages.drop_last() == each_named(rest, "PackageReference"@, "PackageReference"@));
        let info = csproj_of_events(events);
        let before = csproj_of_events(rest);
        assert forall|k: int| 0 <= k < present(packages).len() implies (
        #[trigger] info.package_references[k]).0 == present(packages)[k] by {
            if k < before.package_references.len() {
                assert(info.package_references[k] == before.package_references[k]);
            }
        }
    }
}

/// The value of an attribute is what is written with its references resolved; one that is absent,
/// or that cannot be read or resolved, has none.
pub proof fn attributes_are_read_whole(element: XmlElementView, key: Seq<char>, raw: Seq<char>)
    ensures
        xml_raw_attribute(element.attributes, key) == Ok::<Option<Seq<char>>, ()>(Some(raw))
            ==> attribute_value_of(element, key) == xml_unescaped(raw),
        xml_raw_attribute(element.attributes, key) == Ok::<Option<Seq<char>>, ()>(None)
            ==> attribute_value_of(element, key) is None,
        xml_raw_attribute(element.attributes, key) is Err ==> attribute_value_of(
            element,
            key,
        ) is None,
{
}

/// An assembly definition is an object whose `name` is a string, and takes that name; anything else
/// is none.
pub proof fn assemblies_are_named_objects(document: JsonView)
    ensures
        asmdef_of_json(document) is Some <==> document is Object
            && document->Object_0.contains_key("name"@)
            && document->Object_0["name"@] is Text,
        asmdef_of_json(document) matches Some(info)
            ==> document->Object_0["name"@] == JsonView::Text(info.name),
{
}

/// An assembly definition whose `references` are the given list.
pub open spec fn assembly_with(name: Seq<char>, elements: Seq<JsonView>) -> JsonView {
    JsonView::Object(
        Map::empty().insert("name"@, JsonView::Text(name)).insert(
            "references"@,
            JsonView::List(elements),
        ),
    )
}

proof fn lemma_references_of(name: Seq<char>, elements: Seq<JsonView>)
    ensures
        asmdef_of_json(assembly_with(name, elements)) == Some(
            AsmdefInfoView {
                name,
                references: present(elements.map_values(|element: JsonView| json_text(element))),
            },
        ),
{
    reveal_strlit("name");
    reveal_strlit("references");
    assert("name"@.len() != "references"@.len());
}

/// References are listed element by element: those of two lists, one after the other, are those of
/// the first followed by those of the second; a string is a reference, and nothing else is.
pub proof fn assembly_references_are_read_in_turn(
    name: Seq<char>,
    first: Seq<JsonView>,
    second: Seq<JsonView>,
    element: JsonView,
)
    ensures
        asmdef_of_json(assembly_with(name, first + second))->0.references == asmdef_of_json(
            assembly_with(name, first),
        )->0.references + asmdef_of_json(assembly_with(name, second))->0.references,
        asmdef_of_json(assembly_with(name, seq![element]))->0.references == (match element {
            JsonView::Text(text) => seq![text],
            _ => Seq::empty(),
        }),
        asmdef_of_json(assembly_with(name, first))->0.name == name,
{
    let read = |element: JsonView| json_text(element);
    lemma_references_of(name, first + second);
    lemma_references_of(name, first);
    lemma_references_of(name, second);
    lemma_references_of(name, seq![element]);
    assert((first + second).map_values(read) == first.map_values(read) + second.map_values(read));
    lemma_present_add(first.map_values(read), second.map_values(read));
    let none = Seq::<Option<Seq<char>>>::empty();
    assert(seq![element].map_values(read) == none.push(json_text(element)));
    lemma_present_push(none, json_text(element));
    assert(present(none) == Seq::<Seq<char>>::empty());
}

/// References are those of the member `references` alone: without one, or where it is not a list,
/// there are none; other members make no difference.
pub proof fn assembly_references_are_a_list(members: Map<Seq<char>, JsonView>, name: Seq<char>)
    requires
        members.contains_key("name"@),
        members["name"@] == JsonView::Text(name),
    ensures
        asmdef_of_json(JsonView::Object(members)) matches Some(info) && info.name == name && (
        if members.contains_key("references"@) && members["references"@] is List {
            info.references == asmdef_of_json(
                assembly_with(name, members["references"@]->List_0),
            )->0.references
        } else {
            info.references.len() == 0
        }),
{
    if members.contains_key("references"@) && members["references"@] is List {
        lemma_references_of(name, members["references"@]->List_0);
    }
}

/// What the contracts see of a project file, a solution's project and an assembly definition is
/// all that they hold.
pub proof fn parsed_values_are_seen_whole(
    info: CsprojInfo,
    project: SolutionProject,
    assembly: AsmdefInfo,
    i: int,
)
    ensures
        info@.is_sdk_style == info.is_sdk_style,
        info@.package_references.len() == info.package_references@.len(),
        0 <= i < info.package_references@.len() ==> info@.package_references[i].0
            == info.package_references@[i].0@ && info@.package_references[i].1 == opt_text(
            info.package_references@[i].1,
        ),
        info@.project_references == texts(info.project_references@),
        info@.compile_items == texts(info.compile_items@),
        project@.name == project.name@,
        project@.csproj_rel == project.csproj_rel@,
        assembly@.name == assembly.name@,
        assembly@.references == texts(assembly.references@),
{
}

/// The text of a project file is read to the end: its references and items are those that its
/// events name, all of them.
pub proof fn project_files_are_read_to_the_end(text: Seq<char>)
    ensures
        ({
            let info = csproj_of_text(text);
            let events = xml_events(text, false);
            let projects = present(each_named(events, "ProjectReference"@, "ProjectReference"@));
            let items = present(each_named(events, "Compile"@, "None"@));
            let packages = present(each_named(events, "PackageReference"@, "PackageReference"@));
            &&& info == csproj_of_events(events)
            &&& info.project_references == Seq::new(
                projects.len(),
                |k: int| with_slashes(projects[k]),
            )
            &&& info.compile_items == Seq::new(items.len(), |k: int| with_slashes(items[k]))
            &&& info.package_references.len() == packages.len()
            &&& forall|k: int|
                0 <= k < packages.len() ==> (#[trigger] info.package_references[k]).0 == packages[k]
            &&& info.is_sdk_style <==> exists|i: int|
                0 <= i < events.len() && names_an_sdk(#[trigger] events[i])
        }),
{
    projects_list_every_reference(xml_events(text, false));
    sdk_style_means_an_sdk_is_named(xml_events(text, false));
}

/// A second field that is never closed runs to the end of the line.
pub proof fn an_unclosed_path_runs_to_the_end(
    front: Seq<char>,
    head: Seq<char>,
    gap: Seq<char>,
    name: Seq<char>,
    second_gap: Seq<char>,
    path: Seq<char>,
    back: Seq<char>,
)
    requires
        all_white_space(front),
        all_white_space(back),
        !head.contains('='),
        !gap.contains('"'),
        !name.contains('"'),
        !second_gap.contains('"'),
        !path.contains('"'),
        path.len() > 0 ==> !is_white_space(path.last()),
    ensures
        ({
            let line = "Project("@ + (head.push('=') + (gap.push('"') + (name.push('"') + (
            second_gap.push('"') + path))));
            let declared = declared_project(front + line + back);
            &&& is_csproj_path(with_slashes(path)) ==> (declared matches Some(project)
                && project.name == name && project.csproj_rel == with_slashes(path))
            &&& !is_csproj_path(with_slashes(path)) ==> declared is None
        }),
{
    reveal_strlit("Project(");
    let second = second_gap.push('"') + path;
    let fields = gap.push('"') + (name.push('"') + second);
    let rest = head.push('=') + fields;
    let line = "Project("@ + rest;
    assert(line[0] == 'P');
    assert(line.last() == second.last());
    if path.len() > 0 {
        assert(second.last() == path.last());
    } else {
        assert(second.last() == '"');
    }
    trimming_takes_off_white_space(front, line, back);
    prefixes_are_followed_by_the_rest(line, "Project("@, rest);
    lemma_split_once_at(head, '=', fields);
    quoted_fields_are_read_in_turn(gap, name, second);
    quoted_fields_are_read_in_turn(second_gap, path, Seq::empty());
    let found = quoted(fields);
    assert(found == seq![name] + seq![path]);
    assert(found.len() == 2 && found[0] == name && found[1] == path);
}

}
