//! Software bills of materials (CycloneDX 1.5 and SPDX 2.3) for a project, from
//! its manifest and lockfile.
use vstd::prelude::*;

use crate::hashing::{hex_encode, hex_of, sha256_digest, sha256_of};
use crate::json::{json_str, JsonValue};
use crate::package::lockfile::{LockPackage, PackageLock};
use crate::package::manifest::PackageJson;
use crate::package::why::{entry_name, entry_name_text};
use crate::strmap::{has_key, lookup, StrMap};
use crate::text::{
    chars_eq, chars_of, concat, decimal, decimal_text, find_char, find_seq, has_prefix,
    replace_char, replace_char_with, slice_of, string_of,
};
use vstd::utf8::encode_utf8;

verus! {

pub struct CycloneDxBom {
    pub bom_format: String,
    pub spec_version: String,
    pub serial_number: String,
    pub version: u32,
    pub metadata: CycloneDxMetadata,
    pub components: Vec<CycloneDxComponent>,
    pub dependencies: Vec<CycloneDxDependency>,
}

pub struct CycloneDxMetadata {
    pub timestamp: String,
    pub tools: JsonValue,
    pub component: CycloneDxComponent,
}

pub struct CycloneDxComponent {
    pub component_type: String,
    pub name: String,
    pub version: String,
    pub purl: Option<String>,
    pub bom_ref: Option<String>,
    pub description: Option<String>,
}

pub struct CycloneDxDependency {
    pub reference: String,
    pub depends_on: Vec<String>,
}

pub struct SpdxDocument {
    pub spdx_version: String,
    pub data_license: String,
    pub spdx_id: String,
    pub name: String,
    pub document_namespace: String,
    pub creation_info: SpdxCreationInfo,
    pub packages: Vec<SpdxPackage>,
    pub relationships: Vec<SpdxRelationship>,
}

pub struct SpdxCreationInfo {
    pub created: String,
    pub creators: Vec<String>,
}

pub struct SpdxPackage {
    pub name: String,
    pub spdx_id: String,
    pub version_info: String,
    pub download_location: String,
    pub files_analyzed: bool,
    pub external_refs: Option<Vec<SpdxExternalRef>>,
}

pub struct SpdxExternalRef {
    pub reference_category: String,
    pub reference_type: String,
    pub reference_locator: String,
}

pub struct SpdxRelationship {
    pub spdx_element_id: String,
    pub relationship_type: String,
    pub related_spdx_element: String,
}

/// A component as plain values.
pub struct ComponentView {
    pub component_type: Seq<char>,
    pub name: Seq<char>,
    pub version: Seq<char>,
    pub purl: Option<Seq<char>>,
    pub bom_ref: Option<Seq<char>>,
    pub description: Option<Seq<char>>,
}

pub open spec fn opt_text(o: Option<String>) -> Option<Seq<char>> {
    match o {
        Some(s) => Some(s@),
        None => None,
    }
}

impl View for CycloneDxComponent {
    type V = ComponentView;

    open spec fn view(&self) -> ComponentView {
        ComponentView {
            component_type: self.component_type@,
            name: self.name@,
            version: self.version@,
            purl: opt_text(self.purl),
            bom_ref: opt_text(self.bom_ref),
            description: opt_text(self.description),
        }
    }
}

pub open spec fn texts(v: Seq<String>) -> Seq<Seq<char>> {
    v.map_values(|s: String| s@)
}

impl View for CycloneDxDependency {
    type V = (Seq<char>, Seq<Seq<char>>);

    open spec fn view(&self) -> (Seq<char>, Seq<Seq<char>>) {
        (self.reference@, texts(self.depends_on@))
    }
}

pub open spec fn text_or(o: Option<String>, d: Seq<char>) -> Seq<char> {
    match o {
        Some(s) => s@,
        None => d,
    }
}

/// How a package name appears in a package URL: `@scope/name` as `%40scope%2Fname`.
pub open spec fn purl_name(name: Seq<char>) -> Seq<char> {
    if has_prefix(name, "@"@) {
        let stripped = name.drop_first();
        match find_seq(stripped, "/"@) {
            Some(i) => "%40"@ + stripped.subrange(0, i) + "%2F"@ + stripped.subrange(
                i + 1,
                stripped.len() as int,
            ),
            None => name,
        }
    } else {
        name
    }
}

/// The version a lockfile entry is listed with.
pub open spec fn entry_version_text(e: LockPackage) -> Seq<char> {
    text_or(e.version, "0.0.0"@)
}

/// The package URL of a lockfile entry.
pub open spec fn entry_purl(path: Seq<char>, e: LockPackage) -> Seq<char> {
    "pkg:npm/"@ + purl_name(entry_name(path, e)) + "@"@ + entry_version_text(e)
}

/// The package URL of the component installed at `path` (the root is no component).
pub open spec fn purl_at(lock: PackageLock, path: Seq<char>) -> Option<Seq<char>> {
    if path.len() == 0 {
        None
    } else {
        match lookup(lock.packages@, path) {
            Some(e) => Some(entry_purl(path, e)),
            None => None,
        }
    }
}

pub open spec fn root_name_of(m: PackageJson) -> Seq<char> {
    text_or(m.name, "app"@)
}

pub open spec fn root_version_of(m: PackageJson) -> Seq<char> {
    text_or(m.version, "1.0.0"@)
}

/// The package URL of the project itself.
pub open spec fn root_purl(m: PackageJson) -> Seq<char> {
    "pkg:npm/"@ + replace_char(root_name_of(m), '/', "%2F"@) + "@"@ + root_version_of(m)
}

/// The components of the lockfile's packages, in path order.
pub open spec fn components_of(entries: Seq<(String, LockPackage)>) -> Seq<ComponentView>
    decreases entries.len(),
{
    if entries.len() == 0 {
        Seq::empty()
    } else {
        let rest = components_of(entries.drop_last());
        let (p, e) = entries.last();
        if p@.len() == 0 {
            rest
        } else {
            rest.push(
                ComponentView {
                    component_type: "library"@,
                    name: entry_name(p@, e),
                    version: entry_version_text(e),
                    purl: Some(entry_purl(p@, e)),
                    bom_ref: Some(entry_purl(p@, e)),
                    description: None,
                },
            )
        }
    }
}

/// The package URLs of the top-level installs of the named dependencies.
pub open spec fn root_refs(lock: PackageLock, deps: Seq<(String, String)>) -> Seq<Seq<char>>
    decreases deps.len(),
{
    if deps.len() == 0 {
        Seq::empty()
    } else {
        let rest = root_refs(lock, deps.drop_last());
        match purl_at(lock, "node_modules/"@ + deps.last().0@) {
            Some(u) => rest.push(u),
            None => rest,
        }
    }
}

/// The package URLs of what a package at `path` depends on: the copy below it,
/// else the top-level one.
pub open spec fn child_refs(lock: PackageLock, path: Seq<char>, deps: Seq<(String, String)>) -> Seq<
    Seq<char>,
>
    decreases deps.len(),
{
    if deps.len() == 0 {
        Seq::empty()
    } else {
        let rest = child_refs(lock, path, deps.drop_last());
        let k = deps.last().0@;
        match purl_at(lock, path + "/node_modules/"@ + k) {
            Some(u) => rest.push(u),
            None => match purl_at(lock, "node_modules/"@ + k) {
                Some(u) => rest.push(u),
                None => rest,
            },
        }
    }
}

pub open spec fn table_entries(t: Option<StrMap<String>>) -> Seq<(String, String)> {
    match t {
        Some(m) => m@,
        None => Seq::empty(),
    }
}

/// The dependency records of the lockfile's packages, in path order.
pub open spec fn package_deps(lock: PackageLock, entries: Seq<(String, LockPackage)>) -> Seq<
    (Seq<char>, Seq<Seq<char>>),
>
    decreases entries.len(),
{
    if entries.len() == 0 {
        Seq::empty()
    } else {
        let rest = package_deps(lock, entries.drop_last());
        let (p, e) = entries.last();
        if p@.len() == 0 {
            rest
        } else {
            rest.push((entry_purl(p@, e), child_refs(lock, p@, table_entries(e.dependencies))))
        }
    }
}

/// The root entry's dependency table.
pub open spec fn root_deps(lock: PackageLock) -> Seq<(String, String)> {
    match lookup(lock.packages@, Seq::empty()) {
        Some(e) => table_entries(e.dependencies),
        None => Seq::empty(),
    }
}

fn text(s: &str) -> (r: String)
    ensures
        r@ == s@,
{
    string_of(chars_of(s))
}

fn join(a: &str, b: &str) -> (r: String)
    ensures
        r@ == a@ + b@,
{
    string_of(concat(&chars_of(a), &chars_of(b)))
}

fn purl_name_of(name: &String) -> (r: String)
    ensures
        r@ == purl_name(name@),
{
    let n = chars_of(name.as_str());
    proof {
        reveal_strlit("@");
        reveal_strlit("/");
        reveal_strlit("%40");
        reveal_strlit("%2F");
    }
    if n.len() > 0 && n[0] == '@' {
        assert(n@.subrange(0, 1) =~= "@"@);
        let stripped = slice_of(&n, 1, n.len());
        assert(stripped@ =~= n@.drop_first());
        assert("/"@ =~= seq!['/']);
        match find_char(&stripped, '/') {
            Some(i) => {
                let scope = slice_of(&stripped, 0, i);
                let rest = slice_of(&stripped, i + 1, stripped.len());
                let a = concat(&chars_of("%40"), &scope);
                let b = concat(&a, &chars_of("%2F"));
                let c = concat(&b, &rest);
                assert(c@ =~= purl_name(name@));
                string_of(c)
            },
            None => string_of(n),
        }
    } else {
        proof {
            if n@.len() > 0 {
                assert(n@.subrange(0, 1)[0] == n@[0]);
            }
        }
        string_of(n)
    }
}

fn entry_purl_of(path: &String, e: &LockPackage) -> (r: String)
    ensures
        r@ == entry_purl(path@, *e),
{
    proof {
        reveal_strlit("pkg:npm/");
        reveal_strlit("@");
        reveal_strlit("0.0.0");
    }
    let name = entry_name_text(path, e);
    let ver = match &e.version {
        Some(v) => v.clone(),
        None => text("0.0.0"),
    };
    let a = join("pkg:npm/", purl_name_of(&name).as_str());
    let b = join(a.as_str(), "@");
    join(b.as_str(), ver.as_str())
}

fn purl_at_of(lock: &PackageLock, path: &Vec<char>) -> (r: Option<String>)
    ensures
        opt_text(r) == purl_at(*lock, path@),
{
    if path.len() == 0 {
        return None;
    }
    let es = lock.packages.entries();
    match lock.packages.position(path) {
        Some(i) => {
            proof {
                crate::strmap::lemma_lookup_at(es@, i as int);
            }
            Some(entry_purl_of(&es[i].0, &es[i].1))
        },
        None => None,
    }
}

fn root_purl_of(m: &PackageJson) -> (r: String)
    ensures
        r@ == root_purl(*m),
{
    proof {
        reveal_strlit("pkg:npm/");
        reveal_strlit("@");
        reveal_strlit("app");
        reveal_strlit("1.0.0");
        reveal_strlit("%2F");
    }
    let name = match &m.name {
        Some(n) => n.clone(),
        None => text("app"),
    };
    let ver = match &m.version {
        Some(v) => v.clone(),
        None => text("1.0.0"),
    };
    let enc = string_of(replace_char_with(&chars_of(name.as_str()), '/', &chars_of("%2F")));
    let a = join("pkg:npm/", enc.as_str());
    let b = join(a.as_str(), "@");
    join(b.as_str(), ver.as_str())
}

fn first_bytes(v: &Vec<u8>, n: usize) -> (r: Vec<u8>)
    requires
        n <= v@.len(),
    ensures
        r@ == v@.subrange(0, n as int),
{
    let mut out: Vec<u8> = Vec::new();
    let mut i: usize = 0;
    while i < n
        invariant
            i <= n,
            n <= v@.len(),
            out@ == v@.subrange(0, i as int),
        decreases n - i,
    {
        out.push(v[i]);
        i = i + 1;
    }
    out
}

/// The hexadecimal text of the first `n` bytes of the SHA-256 digest of `s`.
fn digest_prefix_hex(s: &String, n: usize) -> (r: String)
    requires
        n <= 32,
    ensures
        r@ == hex_of(sha256_of(encode_utf8(s@)).subrange(0, n as int)),
{
    let d = sha256_digest(s.as_str().as_bytes());
    let p = first_bytes(&d, n);
    hex_encode(p.as_slice())
}

/// The tool entry of the CycloneDX metadata.
pub open spec fn tools_value(v: JsonValue, tool_version: Seq<char>) -> bool {
    match v {
        JsonValue::Array(items) => items@.len() == 1 && match items@[0] {
            JsonValue::Object(ms) => {
                &&& ms@.len() == 3
                &&& ms@[0].0@ == "name"@ && json_str(ms@[0].1) == Some("bolt"@)
                &&& ms@[1].0@ == "vendor"@ && json_str(ms@[1].1) == Some("Bolt"@)
                &&& ms@[2].0@ == "version"@ && json_str(ms@[2].1) == Some(tool_version)
            },
            _ => false,
        },
        _ => false,
    }
}

fn tools_of(tool_version: &str) -> (v: JsonValue)
    ensures
        tools_value(v, tool_version@),
{
    let mut ms: Vec<(String, JsonValue)> = Vec::new();
    ms.push((text("name"), JsonValue::Str(text("bolt"))));
    ms.push((text("vendor"), JsonValue::Str(text("Bolt"))));
    ms.push((text("version"), JsonValue::Str(text(tool_version))));
    let mut items: Vec<JsonValue> = Vec::new();
    items.push(JsonValue::Object(ms));
    JsonValue::Array(items)
}

/// The CycloneDX 1.5 bill of materials: the project as the application, each
/// lockfile package as a library component, and for each the components it
/// depends on. `tool_version` is the version of this program.
pub fn generate_cyclonedx(manifest: &PackageJson, lockfile: &PackageLock, tool_version: &str) -> (r:
    Result<CycloneDxBom, String>)
    ensures
        r matches Ok(bom) && {
            &&& bom.bom_format@ == "CycloneDX"@
            &&& bom.spec_version@ == "1.5"@
            &&& bom.serial_number@ == "urn:uuid:"@ + hex_of(
                sha256_of(encode_utf8(root_name_of(*manifest))).subrange(0, 16),
            )
            &&& bom.version == 1
            &&& bom.metadata.timestamp@ == "2026-09-17T00:00:00Z"@
            &&& tools_value(bom.metadata.tools, tool_version@)
            &&& bom.metadata.component@ == ComponentView {
                component_type: "application"@,
                name: root_name_of(*manifest),
                version: root_version_of(*manifest),
                purl: Some(root_purl(*manifest)),
                bom_ref: Some(root_purl(*manifest)),
                description: opt_text(manifest.description),
            }
            &&& bom.components@.map_values(|c: CycloneDxComponent| c@) == components_of(
                lockfile.packages@,
            )
            &&& bom.dependencies@.map_values(|d: CycloneDxDependency| d@) == seq![
                (root_purl(*manifest), root_refs(*lockfile, root_deps(*lockfile))),
            ] + package_deps(*lockfile, lockfile.packages@)
        },
{
    proof {
        reveal_strlit("app");
        reveal_strlit("1.0.0");
        reveal_strlit("library");
        reveal_strlit("application");
        reveal_strlit("node_modules/");
        reveal_strlit("/node_modules/");
        reveal_strlit("");
    }
    let root_name = match &manifest.name {
        Some(n) => n.clone(),
        None => text("app"),
    };
    let root_ver = match &manifest.version {
        Some(v) => v.clone(),
        None => text("1.0.0"),
    };
    let purl = root_purl_of(manifest);
    let root_component = CycloneDxComponent {
        component_type: text("application"),
        name: root_name.clone(),
        version: root_ver,
        purl: Some(purl.clone()),
        bom_ref: Some(purl.clone()),
        description: crate::package::lockfile::copy_opt_string(&manifest.description),
    };
    let es = lockfile.packages.entries();
    let mut components: Vec<CycloneDxComponent> = Vec::new();
    let mut deps: Vec<CycloneDxDependency> = Vec::new();
    let mut i: usize = 0;
    assert(es@.subrange(0, 0) =~= Seq::<(String, LockPackage)>::empty());
    while i < es.len()
        invariant
            i <= es@.len(),
            es@ == lockfile.packages@,
            components@.map_values(|c: CycloneDxComponent| c@) == components_of(es@.subrange(0, i as int)),
            deps@.map_values(|d: CycloneDxDependency| d@) == package_deps(*lockfile, es@.subrange(0, i as int)),
        decreases es@.len() - i,
    {
        let ghost sub = es@.subrange(0, i + 1);
        assert(sub.drop_last() =~= es@.subrange(0, i as int));
        assert(sub.last() == es@[i as int]);
        let (path, e) = (&es[i].0, &es[i].1);
        if chars_of(path.as_str()).len() != 0 {
            let name = entry_name_text(path, e);
            let ver = match &e.version {
                Some(v) => v.clone(),
                None => text("0.0.0"),
            };
            proof {
                reveal_strlit("0.0.0");
            }
            let u = entry_purl_of(path, e);
            let c = CycloneDxComponent {
                component_type: text("library"),
                name,
                version: ver,
                purl: Some(u.clone()),
                bom_ref: Some(u.clone()),
                description: None,
            };
            let ghost cb = components@.map_values(|c: CycloneDxComponent| c@);
            components.push(c);
            assert(components@.map_values(|c: CycloneDxComponent| c@) =~= cb.push(c@));
            let mut refs: Vec<String> = Vec::new();
            let table = match &e.dependencies {
                Some(t) => t.entries(),
                None => &Vec::new(),
            };
            let ghost tv = table_entries(e.dependencies);
            assert(table@ == tv);
            let mut j: usize = 0;
            assert(tv.subrange(0, 0) =~= Seq::<(String, String)>::empty());
            while j < table.len()
                invariant
                    j <= table@.len(),
                    table@ == tv,
                    texts(refs@) == child_refs(*lockfile, path@, tv.subrange(0, j as int)),
                decreases table@.len() - j,
            {
                let ghost ts = tv.subrange(0, j + 1);
                assert(ts.drop_last() =~= tv.subrange(0, j as int));
                assert(ts.last() == tv[j as int]);
                let k = &table[j].0;
                let direct = concat(&concat(&chars_of(path.as_str()), &chars_of("/node_modules/")), &chars_of(k.as_str()));
                let top = concat(&chars_of("node_modules/"), &chars_of(k.as_str()));
                let ghost rb = texts(refs@);
                match purl_at_of(lockfile, &direct) {
                    Some(u) => {
                        refs.push(u);
                        assert(texts(refs@) =~= rb.push(refs@.last()@));
                    },
                    None => match purl_at_of(lockfile, &top) {
                        Some(u) => {
                            refs.push(u);
                            assert(texts(refs@) =~= rb.push(refs@.last()@));
                        },
                        None => {},
                    },
                }
                j = j + 1;
            }
            assert(tv.subrange(0, tv.len() as int) =~= tv);
            let d = CycloneDxDependency { reference: u, depends_on: refs };
            let ghost db = deps@.map_values(|d: CycloneDxDependency| d@);
            deps.push(d);
            assert(deps@.map_values(|d: CycloneDxDependency| d@) =~= db.push(d@));
        }
        i = i + 1;
    }
    assert(es@.subrange(0, es@.len() as int) =~= es@);
    let mut root_depends: Vec<String> = Vec::new();
    let root_table = match lockfile.packages.get(&chars_of("")) {
        Some(rp) => match &rp.dependencies {
            Some(t) => t.entries(),
            None => &Vec::new(),
        },
        None => &Vec::new(),
    };
    let ghost rt = root_deps(*lockfile);
    assert(""@ =~= Seq::<char>::empty());
    assert(root_table@ == rt);
    let mut j: usize = 0;
    assert(rt.subrange(0, 0) =~= Seq::<(String, String)>::empty());
    while j < root_table.len()
        invariant
            j <= root_table@.len(),
            root_table@ == rt,
            texts(root_depends@) == root_refs(*lockfile, rt.subrange(0, j as int)),
        decreases root_table@.len() - j,
    {
        let ghost ts = rt.subrange(0, j + 1);
        assert(ts.drop_last() =~= rt.subrange(0, j as int));
        assert(ts.last() == rt[j as int]);
        let top = concat(&chars_of("node_modules/"), &chars_of(root_table[j].0.as_str()));
        let ghost rb = texts(root_depends@);
        match purl_at_of(lockfile, &top) {
            Some(u) => {
                root_depends.push(u);
                assert(texts(root_depends@) =~= rb.push(root_depends@.last()@));
            },
            None => {},
        }
        j = j + 1;
    }
    assert(rt.subrange(0, rt.len() as int) =~= rt);
    let mut dependencies: Vec<CycloneDxDependency> = Vec::new();
    dependencies.push(CycloneDxDependency { reference: purl, depends_on: root_depends });
    let ghost first = dependencies@.map_values(|d: CycloneDxDependency| d@);
    let mut k: usize = 0;
    let ghost dv = deps@.map_values(|d: CycloneDxDependency| d@);
    let mut rest = deps;
    let n = rest.len();
    while k < n
        invariant
            n == dv.len(),
            k <= dv.len(),
            rest@.map_values(|d: CycloneDxDependency| d@) == dv.subrange(k as int, dv.len() as int),
            dependencies@.map_values(|d: CycloneDxDependency| d@) == first + dv.subrange(0, k as int),
        decreases n - k,
    {
        let ghost rv = rest@.map_values(|d: CycloneDxDependency| d@);
        assert(rv.len() == rest@.len());
        let d = rest.remove(0);
        assert(rest@.map_values(|d: CycloneDxDependency| d@) =~= rv.drop_first());
        assert(rv[0] == d@);
        assert(rv[0] == dv[k as int]);
        let ghost before = dependencies@.map_values(|d: CycloneDxDependency| d@);
        dependencies.push(d);
        assert(dependencies@.map_values(|d: CycloneDxDependency| d@) =~= before.push(d@));
        assert(dv.subrange(0, k + 1) =~= dv.subrange(0, k as int).push(dv[k as int]));
        assert(first + dv.subrange(0, k + 1) =~= (first + dv.subrange(0, k as int)).push(dv[k as int]));
        k = k + 1;
    }
    assert(dv.subrange(0, dv.len() as int) =~= dv);
    proof {
        reveal_strlit("urn:uuid:");
        reveal_strlit("CycloneDX");
        reveal_strlit("1.5");
    }
    let serial = join("urn:uuid:", digest_prefix_hex(&root_name, 16).as_str());
    Ok(
        CycloneDxBom {
            bom_format: text("CycloneDX"),
            spec_version: text("1.5"),
            serial_number: serial,
            version: 1,
            metadata: CycloneDxMetadata {
                timestamp: text("2026-09-17T00:00:00Z"),
                tools: tools_of(tool_version),
                component: root_component,
            },
            components,
            dependencies,
        },
    )
}

/// An SPDX package as plain values.
pub struct SpdxPackageView {
    pub name: Seq<char>,
    pub spdx_id: Seq<char>,
    pub version_info: Seq<char>,
    pub download_location: Seq<char>,
    pub files_analyzed: bool,
    pub external_refs: Option<Seq<(Seq<char>, Seq<char>, Seq<char>)>>,
}

impl View for SpdxExternalRef {
    type V = (Seq<char>, Seq<char>, Seq<char>);

    open spec fn view(&self) -> (Seq<char>, Seq<char>, Seq<char>) {
        (self.reference_category@, self.reference_type@, self.reference_locator@)
    }
}

impl View for SpdxRelationship {
    type V = (Seq<char>, Seq<char>, Seq<char>);

    open spec fn view(&self) -> (Seq<char>, Seq<char>, Seq<char>) {
        (self.spdx_element_id@, self.relationship_type@, self.related_spdx_element@)
    }
}

impl View for SpdxPackage {
    type V = SpdxPackageView;

    open spec fn view(&self) -> SpdxPackageView {
        SpdxPackageView {
            name: self.name@,
            spdx_id: self.spdx_id@,
            version_info: self.version_info@,
            download_location: self.download_location@,
            files_analyzed: self.files_analyzed,
            external_refs: match self.external_refs {
                Some(v) => Some(v@.map_values(|r: SpdxExternalRef| r@)),
                None => None,
            },
        }
    }
}

/// How many entries are not the root.
pub open spec fn nonroot_count(entries: Seq<(String, LockPackage)>) -> nat
    decreases entries.len(),
{
    if entries.len() == 0 {
        0
    } else {
        nonroot_count(entries.drop_last()) + if entries.last().0@.len() == 0 {
            0nat
        } else {
            1nat
        }
    }
}

pub open spec fn package_id(n: nat) -> Seq<char> {
    "SPDXRef-Package-"@ + decimal(n)
}

/// The SPDX packages of the lockfile's packages, numbered in path order.
pub open spec fn spdx_packages(entries: Seq<(String, LockPackage)>) -> Seq<SpdxPackageView>
    decreases entries.len(),
{
    if entries.len() == 0 {
        Seq::empty()
    } else {
        let rest = spdx_packages(entries.drop_last());
        let (p, e) = entries.last();
        if p@.len() == 0 {
            rest
        } else {
            rest.push(
                SpdxPackageView {
                    name: entry_name(p@, e),
                    spdx_id: package_id(nonroot_count(entries)),
                    version_info: entry_version_text(e),
                    download_location: text_or(e.resolved, "NOASSERTION"@),
                    files_analyzed: false,
                    external_refs: Some(seq![("PACKAGE-MANAGER"@, "purl"@, entry_purl(p@, e))]),
                },
            )
        }
    }
}

/// The root depends on each numbered package.
pub open spec fn spdx_relations(entries: Seq<(String, LockPackage)>) -> Seq<(Seq<char>, Seq<char>, Seq<char>)>
    decreases entries.len(),
{
    if entries.len() == 0 {
        Seq::empty()
    } else {
        let rest = spdx_relations(entries.drop_last());
        if entries.last().0@.len() == 0 {
            rest
        } else {
            rest.push(("SPDXRef-RootPackage"@, "DEPENDS_ON"@, package_id(nonroot_count(entries))))
        }
    }
}

fn external_ref(locator: String) -> (r: SpdxExternalRef)
    ensures
        r@ == ("PACKAGE-MANAGER"@, "purl"@, locator@),
{
    SpdxExternalRef {
        reference_category: text("PACKAGE-MANAGER"),
        reference_type: text("purl"),
        reference_locator: locator,
    }
}

fn one_ref(locator: String) -> (r: Option<Vec<SpdxExternalRef>>)
    ensures
        r matches Some(v) && v@.map_values(|x: SpdxExternalRef| x@) == seq![
            ("PACKAGE-MANAGER"@, "purl"@, locator@),
        ],
{
    let mut v: Vec<SpdxExternalRef> = Vec::new();
    v.push(external_ref(locator));
    assert(v@.map_values(|x: SpdxExternalRef| x@) =~= seq![("PACKAGE-MANAGER"@, "purl"@, locator@)]);
    Some(v)
}

/// The SPDX 2.3 document: the project as the root package, each lockfile
/// package numbered after it, and the root depending on each. `tool_version`
/// is the version of this program.
pub fn generate_spdx(manifest: &PackageJson, lockfile: &PackageLock, tool_version: &str) -> (r: Result<
    SpdxDocument,
    String,
>)
    ensures
        r matches Ok(doc) && {
            &&& doc.spdx_version@ == "SPDX-2.3"@
            &&& doc.data_license@ == "CC0-1.0"@
            &&& doc.spdx_id@ == "SPDXRef-DOCUMENT"@
            &&& doc.name@ == root_name_of(*manifest)
            &&& doc.document_namespace@ == "https://spdx.org/spdxdocs/"@ + root_name_of(*manifest) + "-"@
                + hex_of(sha256_of(encode_utf8(root_name_of(*manifest))).subrange(0, 8))
            &&& doc.creation_info.created@ == "2026-09-17T00:00:00Z"@
            &&& texts(doc.creation_info.creators@) == seq!["Tool: bolt-"@ + tool_version@]
            &&& doc.packages@.map_values(|p: SpdxPackage| p@) == seq![
                SpdxPackageView {
                    name: root_name_of(*manifest),
                    spdx_id: "SPDXRef-RootPackage"@,
                    version_info: root_version_of(*manifest),
                    download_location: "NOASSERTION"@,
                    files_analyzed: false,
                    external_refs: Some(seq![("PACKAGE-MANAGER"@, "purl"@, root_purl(*manifest))]),
                },
            ] + spdx_packages(lockfile.packages@)
            &&& doc.relationships@.map_values(|x: SpdxRelationship| x@) == seq![
                ("SPDXRef-DOCUMENT"@, "DESCRIBES"@, "SPDXRef-RootPackage"@),
            ] + spdx_relations(lockfile.packages@)
        },
{
    proof {
        reveal_strlit("app");
        reveal_strlit("1.0.0");
        reveal_strlit("NOASSERTION");
        reveal_strlit("SPDXRef-Package-");
        reveal_strlit("SPDXRef-RootPackage");
        reveal_strlit("SPDXRef-DOCUMENT");
        reveal_strlit("DEPENDS_ON");
        reveal_strlit("DESCRIBES");
    }
    let root_name = match &manifest.name {
        Some(n) => n.clone(),
        None => text("app"),
    };
    let root_ver = match &manifest.version {
        Some(v) => v.clone(),
        None => text("1.0.0"),
    };
    let root_pkg = SpdxPackage {
        name: root_name.clone(),
        spdx_id: text("SPDXRef-RootPackage"),
        version_info: root_ver,
        download_location: text("NOASSERTION"),
        files_analyzed: false,
        external_refs: one_ref(root_purl_of(manifest)),
    };
    let mut packages: Vec<SpdxPackage> = Vec::new();
    packages.push(root_pkg);
    let mut relationships: Vec<SpdxRelationship> = Vec::new();
    relationships.push(
        SpdxRelationship {
            spdx_element_id: text("SPDXRef-DOCUMENT"),
            relationship_type: text("DESCRIBES"),
            related_spdx_element: text("SPDXRef-RootPackage"),
        },
    );
    let ghost first_p = packages@.map_values(|p: SpdxPackage| p@);
    let ghost first_r = relationships@.map_values(|x: SpdxRelationship| x@);
    let es = lockfile.packages.entries();
    let mut counter: usize = 0;
    let mut i: usize = 0;
    assert(es@.subrange(0, 0) =~= Seq::<(String, LockPackage)>::empty());
    assert(first_p + spdx_packages(es@.subrange(0, 0)) =~= first_p);
    assert(first_r + spdx_relations(es@.subrange(0, 0)) =~= first_r);
    while i < es.len()
        invariant
            i <= es@.len(),
            es@ == lockfile.packages@,
            counter == nonroot_count(es@.subrange(0, i as int)),
            counter <= i,
            packages@.map_values(|p: SpdxPackage| p@) == first_p + spdx_packages(es@.subrange(0, i as int)),
            relationships@.map_values(|x: SpdxRelationship| x@) == first_r + spdx_relations(es@.subrange(0, i as int)),
        decreases es@.len() - i,
    {
        let ghost sub = es@.subrange(0, i + 1);
        assert(sub.drop_last() =~= es@.subrange(0, i as int));
        assert(sub.last() == es@[i as int]);
        let (path, e) = (&es[i].0, &es[i].1);
        if chars_of(path.as_str()).len() != 0 {
            counter = counter + 1;
            let id = join("SPDXRef-Package-", decimal_text(counter).as_str());
            let ver = match &e.version {
                Some(v) => v.clone(),
                None => text("0.0.0"),
            };
            proof {
                reveal_strlit("0.0.0");
            }
            let loc = match &e.resolved {
                Some(u) => u.clone(),
                None => text("NOASSERTION"),
            };
            let pkg = SpdxPackage {
                name: entry_name_text(path, e),
                spdx_id: id.clone(),
                version_info: ver,
                download_location: loc,
                files_analyzed: false,
                external_refs: one_ref(entry_purl_of(path, e)),
            };
            let ghost pb = packages@.map_values(|p: SpdxPackage| p@);
            packages.push(pkg);
            assert(packages@.map_values(|p: SpdxPackage| p@) =~= pb.push(pkg@));
            let rel = SpdxRelationship {
                spdx_element_id: text("SPDXRef-RootPackage"),
                relationship_type: text("DEPENDS_ON"),
                related_spdx_element: id,
            };
            let ghost rb = relationships@.map_values(|x: SpdxRelationship| x@);
            relationships.push(rel);
            assert(relationships@.map_values(|x: SpdxRelationship| x@) =~= rb.push(rel@));
        }
        i = i + 1;
    }
    assert(es@.subrange(0, es@.len() as int) =~= es@);
    proof {
        reveal_strlit("https://spdx.org/spdxdocs/");
        reveal_strlit("-");
        reveal_strlit("Tool: bolt-");
        reveal_strlit("SPDX-2.3");
        reveal_strlit("CC0-1.0");
    }
    let ns = join(join(join("https://spdx.org/spdxdocs/", root_name.as_str()).as_str(), "-").as_str(), digest_prefix_hex(&root_name, 8).as_str());
    let mut creators: Vec<String> = Vec::new();
    creators.push(join("Tool: bolt-", tool_version));
    assert(texts(creators@) =~= seq!["Tool: bolt-"@ + tool_version@]);
    Ok(
        SpdxDocument {
            spdx_version: text("SPDX-2.3"),
            data_license: text("CC0-1.0"),
            spdx_id: text("SPDXRef-DOCUMENT"),
            name: root_name,
            document_namespace: ns,
            creation_info: SpdxCreationInfo { created: text("2026-09-17T00:00:00Z"), creators },
            packages,
            relationships,
        },
    )
}

} // verus!
