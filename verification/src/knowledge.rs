use vstd::prelude::*;

use crate::position::{Point, Position};
use crate::query::spec_string_at_pos;
use crate::tree::SyntaxNode;

verus! {

/// One discovered knowledge-base file: its name and where it was found.
pub struct LanguageDoc {
    pub docname: String,
    pub path: String,
}

/// One keyword's record in the knowledge base.
pub struct KeywordDetail {
    pub keyword: String,
    pub syntax: String,
    pub keyword_detail_type: String,
    pub node_type: Vec<String>,
    pub description: String,
    pub example: String,
}

/// The abstract value of a keyword record.
pub struct DetailView {
    pub keyword: Seq<char>,
    pub syntax: Seq<char>,
    pub keyword_detail_type: Seq<char>,
    pub node_type: Seq<Seq<char>>,
    pub description: Seq<char>,
    pub example: Seq<char>,
}

impl View for KeywordDetail {
    type V = DetailView;

    open spec fn view(&self) -> DetailView {
        DetailView {
            keyword: self.keyword@,
            syntax: self.syntax@,
            keyword_detail_type: self.keyword_detail_type@,
            node_type: self.node_type@.map_values(|x: String| x@),
            description: self.description@,
            example: self.example@,
        }
    }
}

/// One category of keywords with the records that document them.
pub struct TypeCategory {
    pub category: String,
    pub keywords: Vec<String>,
    pub keyword_details: Vec<KeywordDetail>,
}

/// What one knowledge-base file defines: the action it answers and its
/// keyword categories.
pub struct LanguageDefinition {
    pub lsp_action: String,
    pub type_categories: Vec<TypeCategory>,
}

/// A category lists the keyword.
pub open spec fn spec_cat_has(c: TypeCategory, k: Seq<char>) -> bool {
    exists|i: int| 0 <= i < c.keywords@.len() && (#[trigger] c.keywords@[i])@ == k
}

/// The first category that lists the keyword.
pub open spec fn spec_first_category(cs: Seq<TypeCategory>, k: Seq<char>) -> Option<TypeCategory>
    decreases cs.len(),
{
    if cs.len() == 0 {
        None
    } else if spec_cat_has(cs[0], k) {
        Some(cs[0])
    } else {
        spec_first_category(cs.drop_first(), k)
    }
}

/// The first record whose keyword is exactly `k`.
pub open spec fn spec_first_detail(ds: Seq<KeywordDetail>, k: Seq<char>) -> Option<KeywordDetail>
    decreases ds.len(),
{
    if ds.len() == 0 {
        None
    } else if ds[0].keyword@ == k {
        Some(ds[0])
    } else {
        spec_first_detail(ds.drop_first(), k)
    }
}

/// The record a definition answers for a keyword: the matching record of the
/// first category that lists the keyword; nothing when no category lists it
/// or the listing category carries no matching record.
pub open spec fn spec_lookup(d: LanguageDefinition, k: Seq<char>) -> Option<KeywordDetail> {
    match spec_first_category(d.type_categories@, k) {
        Some(c) => spec_first_detail(c.keyword_details@, k),
        None => None,
    }
}

impl LanguageDefinition {
    /// Finds the record for a keyword, per `spec_lookup`.
    pub fn lookup(&self, keyword: &str) -> (r: Option<&KeywordDetail>)
        ensures
            match r {
                Some(d) => spec_lookup(*self, keyword@) == Some(*d),
                None => spec_lookup(*self, keyword@) is None,
            },
    {
        let n = self.type_categories.len();
        let mut i: usize = 0;
        proof {
            assert(self.type_categories@.skip(0) =~= self.type_categories@);
        }
        while i < n
            invariant
                n == self.type_categories@.len(),
                i <= n,
                spec_first_category(self.type_categories@, keyword@) == spec_first_category(
                    self.type_categories@.skip(i as int),
                    keyword@,
                ),
            decreases n - i,
        {
            let cat = &self.type_categories[i];
            proof {
                let cs = self.type_categories@;
                assert(cs.skip(i as int)[0] == cs[i as int]);
                assert(cs.skip(i as int).drop_first() =~= cs.skip(i + 1));
            }
            if Self::keywords_contain(&cat.keywords, keyword) {
                return Self::detail_for(&cat.keyword_details, keyword);
            }
            i = i + 1;
        }
        proof {
            assert(self.type_categories@.skip(n as int) =~= Seq::<TypeCategory>::empty());
        }
        None
    }

    /// Whether the list of keywords contains the given one.
    fn keywords_contain(ks: &Vec<String>, keyword: &str) -> (r: bool)
        ensures
            r == exists|i: int| 0 <= i < ks@.len() && (#[trigger] ks@[i])@ == keyword@,
    {
        let n = ks.len();
        let mut i: usize = 0;
        while i < n
            invariant
                n == ks@.len(),
                i <= n,
                forall|k: int| 0 <= k < i ==> (#[trigger] ks@[k])@ != keyword@,
            decreases n - i,
        {
            if crate::strutil::str_eq(ks[i].as_str(), keyword) {
                return true;
            }
            i = i + 1;
        }
        false
    }

    /// The first record whose keyword matches.
    fn detail_for<'a>(ds: &'a Vec<KeywordDetail>, keyword: &str) -> (r: Option<&'a KeywordDetail>)
        ensures
            match r {
                Some(d) => spec_first_detail(ds@, keyword@) == Some(*d),
                None => spec_first_detail(ds@, keyword@) is None,
            },
    {
        let n = ds.len();
        let mut i: usize = 0;
        proof {
            assert(ds@.skip(0) =~= ds@);
        }
        while i < n
            invariant
                n == ds@.len(),
                i <= n,
                spec_first_detail(ds@, keyword@) == spec_first_detail(ds@.skip(i as int), keyword@),
            decreases n - i,
        {
            proof {
                assert(ds@.skip(i as int)[0] == ds@[i as int]);
                assert(ds@.skip(i as int).drop_first() =~= ds@.skip(i + 1));
            }
            if crate::strutil::str_eq(ds[i].keyword.as_str(), keyword) {
                return Some(&ds[i]);
            }
            i = i + 1;
        }
        proof {
            assert(ds@.skip(n as int) =~= Seq::<KeywordDetail>::empty());
        }
        None
    }

    /// A short textual form of the definition: the action it answers.
    pub fn _to_string(&self) -> (r: String)
        ensures
            r@ == self.lsp_action@,
    {
        self.lsp_action.clone()
    }
}

/// `key` is `action` with every ASCII capital folded to its small letter.
pub open spec fn key_matches_lowered(key: Seq<char>, action: Seq<char>) -> bool {
    &&& key.len() == action.len()
    &&& forall|i: int|
        0 <= i < key.len() ==> (if 'A' <= action[i] && action[i] <= 'Z' {
            (#[trigger] key[i]) as u32 == action[i] as u32 + 32
        } else {
            key[i] == action[i]
        })
}

/// Whether `key` equals the ASCII-lowercase folding of `action`.
pub fn eq_lowered(key: &str, action: &str) -> (r: bool)
    ensures
        r == key_matches_lowered(key@, action@),
{
    let n = key.unicode_len();
    let m = action.unicode_len();
    if n != m {
        return false;
    }
    let mut i: usize = 0;
    while i < n
        invariant
            n == key@.len(),
            n == action@.len(),
            i <= n,
            forall|k: int|
                0 <= k < i ==> (if 'A' <= action@[k] && action@[k] <= 'Z' {
                    (#[trigger] key@[k]) as u32 == action@[k] as u32 + 32
                } else {
                    key@[k] == action@[k]
                }),
        decreases n - i,
    {
        let kc = key.get_char(i);
        let ac = action.get_char(i);
        if ac >= 'A' && ac <= 'Z' {
            if !((kc as u32) == (ac as u32) + 32) {
                return false;
            }
        } else {
            if kc != ac {
                return false;
            }
        }
        i = i + 1;
    }
    true
}

/// The first definition answering `action` exactly.
pub open spec fn spec_find_def(
    storage: Seq<LanguageDefinition>,
    action: Seq<char>,
) -> Option<LanguageDefinition>
    decreases storage.len(),
{
    if storage.len() == 0 {
        None
    } else if storage[0].lsp_action@ == action {
        Some(storage[0])
    } else {
        spec_find_def(storage.drop_first(), action)
    }
}

/// The first definition answering the lowercase folding of `action`.
pub open spec fn spec_find_def_lowered(
    storage: Seq<LanguageDefinition>,
    action: Seq<char>,
) -> Option<LanguageDefinition>
    decreases storage.len(),
{
    if storage.len() == 0 {
        None
    } else if key_matches_lowered(storage[0].lsp_action@, action) {
        Some(storage[0])
    } else {
        spec_find_def_lowered(storage.drop_first(), action)
    }
}

fn find_def<'a>(storage: &'a Vec<LanguageDefinition>, action: &str) -> (r: Option<
    &'a LanguageDefinition,
>)
    ensures
        match r {
            Some(d) => spec_find_def(storage@, action@) == Some(*d),
            None => spec_find_def(storage@, action@) is None,
        },
{
    let n = storage.len();
    let mut i: usize = 0;
    proof {
        assert(storage@.skip(0) =~= storage@);
    }
    while i < n
        invariant
            n == storage@.len(),
            i <= n,
            spec_find_def(storage@, action@) == spec_find_def(storage@.skip(i as int), action@),
        decreases n - i,
    {
        proof {
            assert(storage@.skip(i as int)[0] == storage@[i as int]);
            assert(storage@.skip(i as int).drop_first() =~= storage@.skip(i + 1));
        }
        if crate::strutil::str_eq(storage[i].lsp_action.as_str(), action) {
            return Some(&storage[i]);
        }
        i = i + 1;
    }
    proof {
        assert(storage@.skip(n as int) =~= Seq::<LanguageDefinition>::empty());
    }
    None
}

fn find_def_lowered<'a>(storage: &'a Vec<LanguageDefinition>, action: &str) -> (r: Option<
    &'a LanguageDefinition,
>)
    ensures
        match r {
            Some(d) => spec_find_def_lowered(storage@, action@) == Some(*d),
            None => spec_find_def_lowered(storage@, action@) is None,
        },
{
    let n = storage.len();
    let mut i: usize = 0;
    proof {
        assert(storage@.skip(0) =~= storage@);
    }
    while i < n
        invariant
            n == storage@.len(),
            i <= n,
            spec_find_def_lowered(storage@, action@) == spec_find_def_lowered(
                storage@.skip(i as int),
                action@,
            ),
        decreases n - i,
    {
        proof {
            assert(storage@.skip(i as int)[0] == storage@[i as int]);
            assert(storage@.skip(i as int).drop_first() =~= storage@.skip(i + 1));
        }
        if eq_lowered(storage[i].lsp_action.as_str(), action) {
            return Some(&storage[i]);
        }
        i = i + 1;
    }
    proof {
        assert(storage@.skip(n as int) =~= Seq::<LanguageDefinition>::empty());
    }
    None
}

/// The record the knowledge base answers for the token under the cursor:
/// the token's text is read from the tree, the definition for the action
/// (exactly, else by lowercase folding) is consulted, and its record for
/// that text is returned; nothing when the cursor rests on no token, the
/// action is unknown, or the keyword is absent — a knowledge-base miss
/// silently yields no detail.
pub open spec fn spec_from_position(
    pos: Point,
    root: SyntaxNode,
    s: Seq<char>,
    action: Seq<char>,
    storage: Seq<LanguageDefinition>,
) -> Option<KeywordDetail> {
    match spec_string_at_pos(pos, root, s) {
        Some(msg) => {
            let def = if spec_find_def(storage, action) is Some {
                spec_find_def(storage, action)
            } else {
                spec_find_def_lowered(storage, action)
            };
            match def {
                Some(d) => spec_lookup(d, msg),
                None => None,
            }
        },
        None => None,
    }
}

/// Looks up the keyword record for the token at the cursor, per
/// `spec_from_position`; the result is a copy of the stored record.
pub fn get_from_position(
    location: Position,
    root: &SyntaxNode,
    source: &str,
    lsp_action: &str,
    storage: &Vec<LanguageDefinition>,
) -> (r: Option<KeywordDetail>)
    ensures
        ({
            let pos = Point { row: location.line as usize, column: location.character as usize };
            match r {
                Some(d) => spec_from_position(pos, *root, source@, lsp_action@, storage@)
                    matches Some(d0) && d@ == d0@,
                None => spec_from_position(pos, *root, source@, lsp_action@, storage@) is None,
            }
        }),
{
    let message = match crate::query::get_string_at_pos(location, root, source) {
        Some(m) => m,
        None => {
            return None;
        },
    };
    let def = match find_def(storage, lsp_action) {
        Some(d) => d,
        None => {
            match find_def_lowered(storage, lsp_action) {
                Some(d) => d,
                None => {
                    return None;
                },
            }
        },
    };
    match def.lookup(message.as_str()) {
        Some(d) => Some(copy_detail(d)),
        None => None,
    }
}

/// Copies the strings of a vector one by one.
fn clone_string_vec(v: &Vec<String>) -> (r: Vec<String>)
    ensures
        r@.len() == v@.len(),
        forall|i: int| 0 <= i < v@.len() ==> (#[trigger] r@[i])@ == v@[i]@,
{
    let n = v.len();
    let mut out: Vec<String> = Vec::new();
    let mut i: usize = 0;
    while i < n
        invariant
            n == v@.len(),
            i <= n,
            out@.len() == i,
            forall|k: int| 0 <= k < i ==> (#[trigger] out@[k])@ == v@[k]@,
        decreases n - i,
    {
        out.push(v[i].clone());
        i = i + 1;
    }
    out
}

/// Copies a keyword record field by field.
fn copy_detail(d: &KeywordDetail) -> (r: KeywordDetail)
    ensures
        r@ == d@,
{
    let r = KeywordDetail {
        keyword: d.keyword.clone(),
        syntax: d.syntax.clone(),
        keyword_detail_type: d.keyword_detail_type.clone(),
        node_type: clone_string_vec(&d.node_type),
        description: d.description.clone(),
        example: d.example.clone(),
    };
    proof {
        assert(r@.node_type =~= d@.node_type);
        assert(r@ == d@) by {
            assert(r@.keyword == d@.keyword);
        }
    }
    r
}

/// The hover text shown for a keyword record: a markdown card whose layout
/// depends on the connected client.
pub open spec fn spec_hover_markdown(client: Seq<char>, d: DetailView) -> Seq<char> {
    if client == "vscode"@ {
        "\n### "@ + d.keyword + " \n<p align='right'>"@ + d.keyword_detail_type + "</p>\n\n---\n#### "@
            + d.description + "  \n\n```cyber\n"@ + d.example + "\n```  "@
    } else {
        "\n```cyber\n"@ + d.keyword + "\n```\n---\n"@ + d.description + "\n\n```cyber\n"@
            + d.example + "\n``` "@
    }
}

/// Builds the hover text for a keyword record.
pub fn hover_markdown(lsp_client: &str, d: &KeywordDetail) -> (r: String)
    ensures
        r@ == spec_hover_markdown(lsp_client@, d@),
{
    if crate::strutil::str_eq(lsp_client, "vscode") {
        let mut out = String::from_str("\n### ");
        out.append(d.keyword.as_str());
        out.append(" \n<p align='right'>");
        out.append(d.keyword_detail_type.as_str());
        out.append("</p>\n\n---\n#### ");
        out.append(d.description.as_str());
        out.append("  \n\n```cyber\n");
        out.append(d.example.as_str());
        out.append("\n```  ");
        out
    } else {
        let mut out = String::from_str("\n```cyber\n");
        out.append(d.keyword.as_str());
        out.append("\n```\n---\n");
        out.append(d.description.as_str());
        out.append("\n\n```cyber\n");
        out.append(d.example.as_str());
        out.append("\n``` ");
        out
    }
}

/// Server configuration as the client delivers it.
pub struct Config {
    pub enable: bool,
    pub verbose: bool,
    pub show_warnings: bool,
    pub unstable_features: bool,
    pub performance_metrics: bool,
    pub root_dir: Option<String>,
    pub log_level: Option<String>,
    pub client_name: Option<String>,
}

impl Config {
    /// The defaults used until the client sends a configuration.
    pub fn default() -> (r: Config)
        ensures
            r.enable,
            !r.verbose,
            r.show_warnings,
            !r.unstable_features,
            !r.performance_metrics,
            r.root_dir is None,
            r.log_level is None,
            r.client_name is None,
    {
        Config {
            enable: true,
            verbose: false,
            root_dir: None,
            log_level: None,
            client_name: None,
            show_warnings: true,
            unstable_features: false,
            performance_metrics: false,
        }
    }
}

/// What a file entry is.
#[derive(Clone, Copy, Debug, PartialEq, Eq, Structural)]
pub enum FileType {
    Dir,
    File,
}

impl FileType {
    /// A short label naming the entry kind.
    pub fn label(&self) -> (r: String)
        ensures
            *self is Dir ==> r@ == "Dir"@,
            *self is File ==> r@ == "File"@,
    {
        match self {
            FileType::Dir => String::from_str("Dir"),
            FileType::File => String::from_str("File"),
        }
    }
}

/// Urgency grades for a user-facing notification.
#[derive(Clone, Copy, Debug, PartialEq, Eq, Structural)]
pub enum Type {
    Error,
    Warning,
    Info,
}

impl Type {
    /// The label a notification carries for this grade.
    pub fn to_string(&self) -> (r: String)
        ensures
            *self is Error ==> r@ == "Error"@,
            *self is Warning ==> r@ == "Warning"@,
            *self is Info ==> r@ == "Info"@,
    {
        match self {
            Type::Warning => String::from_str("Warning"),
            Type::Error => String::from_str("Error"),
            Type::Info => String::from_str("Info"),
        }
    }
}


/// The hover response for a cursor position: the record of the token under
/// the cursor, rendered as the client's markdown card; nothing when the
/// cursor rests on no token or the knowledge base has no record for it.
pub fn hover_response(
    location: Position,
    root: &SyntaxNode,
    source: &str,
    lsp_client: &str,
    storage: &Vec<LanguageDefinition>,
) -> (r: Option<String>)
    ensures
        ({
            let pos = Point { row: location.line as usize, column: location.character as usize };
            match spec_from_position(pos, *root, source@, "hover"@, storage@) {
                Some(d) => r matches Some(t) && t@ == spec_hover_markdown(lsp_client@, d@),
                None => r is None,
            }
        }),
{
    match get_from_position(location, root, source, "hover", storage) {
        Some(d) => Some(hover_markdown(lsp_client, &d)),
        None => None,
    }
}

} // verus!
