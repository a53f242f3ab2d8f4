//! Reverse IP lookups against an RDAP registry: where the request goes, and
//! which company names are read out of the registry's JSON answer.
use vstd::prelude::*;
use crate::json::{Json, json_document, json_field, json_index, json_items, json_text, parse_json};
use crate::text::{
    insert_sorted_unique,
    lemma_lex_asymmetric,
    lemma_lex_irreflexive,
    lex_lt,
    push_str,
    string_of,
    strictly_sorted,
    views,
};

verus! {

/// `reqwest::Error`, opaque.
#[verifier::external_type_specification]
#[verifier::external_body]
pub struct ExReqwestError(reqwest::Error);

/// `regex::Regex`, opaque.
#[verifier::external_type_specification]
#[verifier::external_body]
pub struct ExRegex(regex::Regex);

/// `regex::Error`, opaque.
#[verifier::external_type_specification]
#[verifier::external_body]
pub struct ExRegexError(regex::Error);

/// What can go wrong in a reverse IP lookup.
#[derive(Debug)]
pub enum ReverseipError {
    /// The HTTP request failed.
    HttpRequestFailed(reqwest::Error),
    /// The answer was no JSON document.
    JsonParsingFailed(serde_json::Error),
    /// The registry refused further requests.
    ApiLimitExceeded,
    /// The answer named no company.
    NoCompanyNamesFound,
}

/// Where reverse IP lookups are sent.
#[derive(Debug)]
pub struct ApiConfig {
    rdap_api_url: String,
}

/// The registry that `ApiConfig::default` asks.
pub open spec fn default_rdap_url() -> Seq<char> {
    "https://rdap.arin.net/registry/ip/"@
}

impl View for ApiConfig {
    type V = Seq<char>;

    /// The base URL of the registry.
    closed spec fn view(&self) -> Seq<char> {
        self.rdap_api_url@
    }
}

impl Default for ApiConfig {
    fn default() -> (r: ApiConfig)
        ensures
            r@ == default_rdap_url(),
    {
        ApiConfig { rdap_api_url: string_of("https://rdap.arin.net/registry/ip/") }
    }
}

impl Clone for ApiConfig {
    fn clone(&self) -> (r: ApiConfig)
        ensures
            r@ == self@,
    {
        ApiConfig { rdap_api_url: self.rdap_api_url.clone() }
    }
}

impl ApiConfig {
    /// The URL that the lookup of `ip` requests: the base URL followed by the
    /// address.
    pub fn lookup_url(&self, ip: &str) -> (r: String)
        ensures
            r@ == self@ + ip@,
    {
        let mut url = self.rdap_api_url.clone();
        push_str(&mut url, ip);
        url
    }
}

/// Whether `regex::Regex::new` accepts `pattern`.
pub uninterp spec fn regex_accepts(pattern: Seq<char>) -> bool;

/// For each match that `regex::Regex::captures_iter` finds in `text` with
/// the regex compiled from `pattern`, the text of capture group 1 (`None`
/// where the group took no part in the match), in the order of the matches.
pub uninterp spec fn regex_group1_captures(pattern: Seq<char>, text: Seq<char>) -> Seq<
    Option<Seq<char>>,
>;

/// Compiles `pattern` with `regex::Regex::new`. The contract claims that
/// the result is `Ok` exactly on the patterns that the name `regex_accepts`
/// holds of; which patterns those are is `regex`'s syntax, left unsaid.
#[verifier::external_body]
fn compile_regex(pattern: &str) -> (r: Result<regex::Regex, regex::Error>)
    ensures
        r is Ok <==> regex_accepts(pattern@),
{
    regex::Regex::new(pattern)
}

/// The pattern of company names: capitalised words separated by white space.
pub const COMPANY_NAME_PATTERN: &'static str = "\\b([A-Z][a-z]+(?:\\s+[A-Z][a-z]+)*)\\b";

/// A compiled regular expression, kept with the pattern it was compiled from.
pub struct CompanyMatcher {
    pattern: String,
    regex: regex::Regex,
}

impl View for CompanyMatcher {
    type V = Seq<char>;

    /// The pattern that the expression was compiled from.
    closed spec fn view(&self) -> Seq<char> {
        self.pattern@
    }
}

/// Option of a string, taken by its view.
pub open spec fn opt_views(s: Seq<Option<String>>) -> Seq<Option<Seq<char>>> {
    s.map_values(
        |o: Option<String>|
            match o {
                Some(x) => Some(x@),
                None => None,
            },
    )
}

/// Runs `regex::Regex::captures_iter` of the matcher's expression over
/// `text` and returns, for each match, capture group 1 as an owned string.
/// The contract claims that this is `regex_group1_captures` of the
/// matcher's pattern and the text: a `CompanyMatcher` is only made by
/// `CompanyMatcher::new`, which compiles its own pattern.
#[verifier::external_body]
fn group1_captures(matcher: &CompanyMatcher, text: &str) -> (r: Vec<Option<String>>)
    ensures
        opt_views(r@) == regex_group1_captures(matcher@, text@),
{
    matcher.regex.captures_iter(text).map(|c| c.get(1).map(|m| m.as_str().to_string())).collect()
}

impl CompanyMatcher {
    /// Compiles `COMPANY_NAME_PATTERN`; `None` where `regex` refuses it.
    pub fn new() -> (r: Option<CompanyMatcher>)
        ensures
            r is Some <==> regex_accepts(COMPANY_NAME_PATTERN@),
            r matches Some(m) ==> m@ == COMPANY_NAME_PATTERN@,
    {
        match compile_regex(COMPANY_NAME_PATTERN) {
            Ok(regex) => Some(CompanyMatcher { pattern: string_of(COMPANY_NAME_PATTERN), regex }),
            Err(_) => None,
        }
    }
}

/// The text of a value that is a JSON string, as a sequence of zero or one texts.
pub open spec fn text_of(j: Option<Json>) -> Seq<Seq<char>> {
    match j {
        Some(v) => match json_text(v) {
            Some(t) => seq![t],
            None => seq![],
        },
        None => seq![],
    }
}

/// The texts of the string elements of a list of values.
pub open spec fn string_items(items: Seq<Json>) -> Seq<Seq<char>>
    decreases items.len(),
{
    if items.len() == 0 {
        seq![]
    } else {
        string_items(items.drop_last()) + text_of(Some(items.last()))
    }
}

/// The fourth element of each vCard property, where it is a string.
pub open spec fn vcard_texts(props: Seq<Json>) -> Seq<Seq<char>>
    decreases props.len(),
{
    if props.len() == 0 {
        seq![]
    } else {
        vcard_texts(props.drop_last()) + text_of(json_index(props.last(), 3))
    }
}

/// The texts that an entity contributes: those of the properties listed
/// as the second element of its `vcardArray`.
pub open spec fn entity_texts(entity: Json) -> Seq<Seq<char>> {
    match json_field(entity, "vcardArray"@) {
        Some(card) => match json_items(card) {
            Some(parts) => if parts.len() > 1 {
                match json_items(parts[1]) {
                    Some(props) => vcard_texts(props),
                    None => seq![],
                }
            } else {
                seq![]
            },
            None => seq![],
        },
        None => seq![],
    }
}

/// The texts of a list of entities, entity by entity.
pub open spec fn entities_texts(entities: Seq<Json>) -> Seq<Seq<char>>
    decreases entities.len(),
{
    if entities.len() == 0 {
        seq![]
    } else {
        entities_texts(entities.drop_last()) + entity_texts(entities.last())
    }
}

/// The texts that a remark contributes: the strings of its `descrição`.
pub open spec fn remark_texts(remark: Json) -> Seq<Seq<char>> {
    string_items(member_list(remark, "descrição"@))
}

/// The texts of a list of remarks, remark by remark.
pub open spec fn remarks_texts(remarks: Seq<Json>) -> Seq<Seq<char>>
    decreases remarks.len(),
{
    if remarks.len() == 0 {
        seq![]
    } else {
        remarks_texts(remarks.drop_last()) + remark_texts(remarks.last())
    }
}

/// The texts of a registry answer that company names are looked for in,
/// in order: its `nome`; the vCard values of its `entidades`; the
/// descriptions of its `observações`.
pub open spec fn name_sources(doc: Json) -> Seq<Seq<char>> {
    text_of(json_field(doc, "nome"@)) + entities_texts(member_list(doc, "entidades"@))
        + remarks_texts(member_list(doc, "observações"@))
}

/// The elements of the array that is member `key` of an object; empty
/// where there is no such member or it is no array.
pub open spec fn member_list(doc: Json, key: Seq<char>) -> Seq<Json> {
    match json_field(doc, key) {
        Some(v) => match json_items(v) {
            Some(items) => items,
            None => seq![],
        },
        None => seq![],
    }
}

/// The present elements of a list of optional texts.
pub open spec fn somes(s: Seq<Option<Seq<char>>>) -> Seq<Seq<char>>
    decreases s.len(),
{
    if s.len() == 0 {
        seq![]
    } else {
        somes(s.drop_last()) + match s.last() {
            Some(x) => seq![x],
            None => seq![],
        }
    }
}

/// Every name that the pattern captures in the texts, text by text.
pub open spec fn matched_names(pattern: Seq<char>, texts: Seq<Seq<char>>) -> Seq<Seq<char>>
    decreases texts.len(),
{
    if texts.len() == 0 {
        seq![]
    } else {
        matched_names(pattern, texts.drop_last()) + somes(
            regex_group1_captures(pattern, texts.last()),
        )
    }
}

/// The text of element `i` of a JSON array, where that element is a string.
pub open spec fn element_text(j: Json, i: int) -> Option<Seq<char>> {
    match json_index(j, i) {
        Some(v) => json_text(v),
        None => None,
    }
}

/// The properties of an entity's vCard: the elements of `vcardArray[1]`;
/// none where that is missing or no array.
pub open spec fn vcard_properties(entity: Json) -> Seq<Json> {
    match json_field(entity, "vcardArray"@) {
        Some(card) => match json_index(card, 1) {
            Some(list) => match json_items(list) {
                Some(props) => props,
                None => seq![],
            },
            None => seq![],
        },
        None => seq![],
    }
}

/// A text is among the present elements of a list exactly where some
/// element is that text.
pub proof fn lemma_somes_contains(s: Seq<Option<Seq<char>>>, x: Seq<char>)
    ensures
        somes(s).contains(x) <==> exists|i: int| 0 <= i < s.len() && #[trigger] s[i] == Some(x),
    decreases s.len(),
{
    broadcast use vstd::seq_lib::lemma_seq_concat_contains_all_elements;

    if s.len() > 0 {
        let init = s.drop_last();
        lemma_somes_contains(init, x);
        if somes(s).contains(x) {
            if somes(init).contains(x) {
                let i = choose|i: int| 0 <= i < init.len() && #[trigger] init[i] == Some(x);
                assert(s[i] == Some(x));
            } else {
                assert(s[s.len() - 1] == Some(x));
            }
        }
        if exists|i: int| 0 <= i < s.len() && #[trigger] s[i] == Some(x) {
            let i = choose|i: int| 0 <= i < s.len() && #[trigger] s[i] == Some(x);
            if i < init.len() {
                assert(init[i] == Some(x));
            } else {
                assert(s.last() == Some(x));
                assert(seq![x][0] == x);
            }
        }
    }
}

/// The texts of a list of vCard properties are, in order, element 3 of
/// every property whose element 3 is a string: each such property gives
/// one text, and no other text is given.
pub proof fn lemma_vcard_texts_in_order(props: Seq<Json>)
    ensures
        vcard_texts(props) == somes(props.map_values(|p: Json| element_text(p, 3))),
    decreases props.len(),
{
    let m = props.map_values(|p: Json| element_text(p, 3));
    if props.len() == 0 {
        assert(m.len() == 0);
    } else {
        let d = props.drop_last();
        lemma_vcard_texts_in_order(d);
        assert(m.drop_last() =~= d.map_values(|p: Json| element_text(p, 3)));
        assert(m.last() == element_text(props.last(), 3));
    }
}

/// The texts that an entity contributes are, in order, element 3 of each
/// property of its vCard (`vcardArray[1]`) where that element is a string:
/// every such property, not only the first.
pub proof fn lemma_entity_texts_in_order(entity: Json)
    ensures
        entity_texts(entity) == somes(
            vcard_properties(entity).map_values(|p: Json| element_text(p, 3)),
        ),
        forall|t: Seq<char>|
            #[trigger] entity_texts(entity).contains(t) <==> exists|k: int|
                0 <= k < vcard_properties(entity).len() && #[trigger] element_text(
                    vcard_properties(entity)[k],
                    3,
                ) == Some(t),
{
    let props = vcard_properties(entity);
    assert(entity_texts(entity) == vcard_texts(props));
    lemma_vcard_texts_in_order(props);
    let m = props.map_values(|p: Json| element_text(p, 3));
    assert forall|t: Seq<char>| #[trigger] entity_texts(entity).contains(t) <==> exists|k: int|
        0 <= k < props.len() && #[trigger] element_text(props[k], 3) == Some(t) by {
        lemma_somes_contains(m, t);
        if entity_texts(entity).contains(t) {
            let i = choose|i: int| 0 <= i < m.len() && #[trigger] m[i] == Some(t);
            assert(element_text(props[i], 3) == Some(t));
        }
        if exists|k: int| 0 <= k < props.len() && #[trigger] element_text(props[k], 3) == Some(t) {
            let k = choose|k: int| 0 <= k < props.len() && #[trigger] element_text(props[k], 3)
                == Some(t);
            assert(m[k] == Some(t));
        }
    }
}

/// A text is among the string items exactly where some item is that string.
pub proof fn lemma_string_items_contains(items: Seq<Json>, x: Seq<char>)
    ensures
        string_items(items).contains(x) <==> exists|i: int|
            0 <= i < items.len() && #[trigger] json_text(items[i]) == Some(x),
    decreases items.len(),
{
    broadcast use vstd::seq_lib::lemma_seq_concat_contains_all_elements;

    if items.len() > 0 {
        let init = items.drop_last();
        lemma_string_items_contains(init, x);
        if string_items(items).contains(x) {
            if string_items(init).contains(x) {
                let i = choose|i: int| 0 <= i < init.len() && #[trigger] json_text(init[i]) == Some(x);
                assert(json_text(items[i]) == Some(x));
            } else {
                assert(text_of(Some(items.last())).contains(x));
                assert(json_text(items[items.len() - 1]) == Some(x));
            }
        }
        if exists|i: int| 0 <= i < items.len() && #[trigger] json_text(items[i]) == Some(x) {
            let i = choose|i: int| 0 <= i < items.len() && #[trigger] json_text(items[i]) == Some(x);
            if i < init.len() {
                assert(json_text(init[i]) == Some(x));
            } else {
                assert(text_of(Some(items.last())) == seq![x]);
                assert(text_of(Some(items.last()))[0] == x);
            }
        }
    }
}

/// A text comes from a list of entities exactly where it comes from one of them.
pub proof fn lemma_entities_texts_contains(entities: Seq<Json>, x: Seq<char>)
    ensures
        entities_texts(entities).contains(x) <==> exists|i: int|
            0 <= i < entities.len() && #[trigger] entity_texts(entities[i]).contains(x),
    decreases entities.len(),
{
    broadcast use vstd::seq_lib::lemma_seq_concat_contains_all_elements;

    if entities.len() > 0 {
        let init = entities.drop_last();
        lemma_entities_texts_contains(init, x);
        if entities_texts(entities).contains(x) && entities_texts(init).contains(x) {
            let i = choose|i: int| 0 <= i < init.len() && #[trigger] entity_texts(init[i]).contains(x);
            assert(entity_texts(entities[i]).contains(x));
        }
        if exists|i: int| 0 <= i < entities.len() && #[trigger] entity_texts(entities[i]).contains(x) {
            let i = choose|i: int| 0 <= i < entities.len() && #[trigger] entity_texts(entities[i]).contains(x);
            if i < init.len() {
                assert(entity_texts(init[i]).contains(x));
            }
        }
    }
}

/// A text comes from a list of remarks exactly where it comes from one of them.
pub proof fn lemma_remarks_texts_contains(remarks: Seq<Json>, x: Seq<char>)
    ensures
        remarks_texts(remarks).contains(x) <==> exists|i: int|
            0 <= i < remarks.len() && #[trigger] remark_texts(remarks[i]).contains(x),
    decreases remarks.len(),
{
    broadcast use vstd::seq_lib::lemma_seq_concat_contains_all_elements;

    if remarks.len() > 0 {
        let init = remarks.drop_last();
        lemma_remarks_texts_contains(init, x);
        if remarks_texts(remarks).contains(x) && remarks_texts(init).contains(x) {
            let i = choose|i: int| 0 <= i < init.len() && #[trigger] remark_texts(init[i]).contains(x);
            assert(remark_texts(remarks[i]).contains(x));
        }
        if exists|i: int| 0 <= i < remarks.len() && #[trigger] remark_texts(remarks[i]).contains(x) {
            let i = choose|i: int| 0 <= i < remarks.len() && #[trigger] remark_texts(remarks[i]).contains(x);
            if i < init.len() {
                assert(remark_texts(init[i]).contains(x));
            }
        }
    }
}

/// A name is matched in a list of texts exactly where it is matched in one of them.
pub proof fn lemma_matched_names_contains(pattern: Seq<char>, texts: Seq<Seq<char>>, x: Seq<char>)
    ensures
        matched_names(pattern, texts).contains(x) <==> exists|i: int|
            0 <= i < texts.len() && #[trigger] somes(regex_group1_captures(pattern, texts[i])).contains(x),
    decreases texts.len(),
{
    broadcast use vstd::seq_lib::lemma_seq_concat_contains_all_elements;

    if texts.len() > 0 {
        let init = texts.drop_last();
        lemma_matched_names_contains(pattern, init, x);
        if matched_names(pattern, texts).contains(x) && matched_names(pattern, init).contains(x) {
            let i = choose|i: int|
                0 <= i < init.len() && #[trigger] somes(regex_group1_captures(pattern, init[i])).contains(x);
            assert(somes(regex_group1_captures(pattern, texts[i])).contains(x));
        }
        if exists|i: int|
            0 <= i < texts.len() && #[trigger] somes(regex_group1_captures(pattern, texts[i])).contains(x) {
            let i = choose|i: int|
                0 <= i < texts.len() && #[trigger] somes(regex_group1_captures(pattern, texts[i])).contains(x);
            if i < init.len() {
                assert(somes(regex_group1_captures(pattern, init[i])).contains(x));
            }
        }
    }
}

/// Texts of the same set give the same set of matched names.
pub proof fn lemma_same_texts_same_names(pattern: Seq<char>, a: Seq<Seq<char>>, b: Seq<Seq<char>>)
    requires
        a.to_set() == b.to_set(),
    ensures
        matched_names(pattern, a).to_set() == matched_names(pattern, b).to_set(),
{
    assert forall|x: Seq<char>| matched_names(pattern, a).contains(x) implies matched_names(
        pattern,
        b,
    ).contains(x) by {
        lemma_matched_names_contains(pattern, a, x);
        lemma_matched_names_contains(pattern, b, x);
        let i = choose|i: int|
            0 <= i < a.len() && #[trigger] somes(regex_group1_captures(pattern, a[i])).contains(x);
        assert(a.to_set().contains(a[i]));
        assert(b.contains(a[i]));
        let j = choose|j: int| 0 <= j < b.len() && b[j] == a[i];
        assert(somes(regex_group1_captures(pattern, b[j])).contains(x));
    }
    assert forall|x: Seq<char>| matched_names(pattern, b).contains(x) implies matched_names(
        pattern,
        a,
    ).contains(x) by {
        lemma_matched_names_contains(pattern, a, x);
        lemma_matched_names_contains(pattern, b, x);
        let i = choose|i: int|
            0 <= i < b.len() && #[trigger] somes(regex_group1_captures(pattern, b[i])).contains(x);
        assert(b.to_set().contains(b[i]));
        assert(a.contains(b[i]));
        let j = choose|j: int| 0 <= j < a.len() && a[j] == b[i];
        assert(somes(regex_group1_captures(pattern, a[j])).contains(x));
    }
    assert(matched_names(pattern, a).to_set() =~= matched_names(pattern, b).to_set());
}

/// Whether company names are looked for in `t` in the registry answer
/// `doc`: `t` is its `nome`; or element 3 of a property of the vCard
/// (`vcardArray[1]`) of one of its `entidades`; or a line of the
/// `descrição` of one of its `observações`; each where it is a string.
pub open spec fn is_name_source(doc: Json, t: Seq<char>) -> bool {
    let entities = member_list(doc, "entidades"@);
    let remarks = member_list(doc, "observações"@);
    ||| (match json_field(doc, "nome"@) {
        Some(v) => json_text(v) == Some(t),
        None => false,
    })
    ||| exists|i: int, k: int|
        0 <= i < entities.len() && 0 <= k < vcard_properties(entities[i]).len()
            && #[trigger] element_text(vcard_properties(entities[i])[k], 3) == Some(t)
    ||| exists|i: int, k: int|
        0 <= i < remarks.len() && 0 <= k < member_list(remarks[i], "descrição"@).len()
            && #[trigger] json_text(member_list(remarks[i], "descrição"@)[k]) == Some(t)
}

/// The texts that company names are looked for in are exactly the name
/// sources of the answer: every string-valued element 3 of every vCard
/// property of every entity among them, with the `nome` and every string
/// line of every remark's description, and nothing else.
pub proof fn lemma_name_sources_exact(doc: Json, t: Seq<char>)
    ensures
        name_sources(doc).contains(t) <==> is_name_source(doc, t),
{
    broadcast use vstd::seq_lib::lemma_seq_concat_contains_all_elements;

    let entities = member_list(doc, "entidades"@);
    let remarks = member_list(doc, "observações"@);
    lemma_entities_texts_contains(entities, t);
    lemma_remarks_texts_contains(remarks, t);
    let nome = text_of(json_field(doc, "nome"@));
    assert(nome.contains(t) <==> (match json_field(doc, "nome"@) {
        Some(v) => json_text(v) == Some(t),
        None => false,
    })) by {
        if nome.contains(t) {
            let j = choose|j: int| 0 <= j < nome.len() && nome[j] == t;
            assert(j == 0);
        }
        if nome.len() == 1 {
            assert(nome[0] == nome[0]);
        }
    }
    assert(entities_texts(entities).contains(t) <==> exists|i: int, k: int|
        0 <= i < entities.len() && 0 <= k < vcard_properties(entities[i]).len()
            && #[trigger] element_text(vcard_properties(entities[i])[k], 3) == Some(t)) by {
        if entities_texts(entities).contains(t) {
            let i = choose|i: int| 0 <= i < entities.len() && #[trigger] entity_texts(
                entities[i],
            ).contains(t);
            lemma_entity_texts_in_order(entities[i]);
            let k = choose|k: int|
                0 <= k < vcard_properties(entities[i]).len() && #[trigger] element_text(
                    vcard_properties(entities[i])[k],
                    3,
                ) == Some(t);
            assert(element_text(vcard_properties(entities[i])[k], 3) == Some(t));
        }
        if exists|i: int, k: int|
            0 <= i < entities.len() && 0 <= k < vcard_properties(entities[i]).len()
                && #[trigger] element_text(vcard_properties(entities[i])[k], 3) == Some(t) {
            let (i, k) = choose|i: int, k: int|
                0 <= i < entities.len() && 0 <= k < vcard_properties(entities[i]).len()
                    && #[trigger] element_text(vcard_properties(entities[i])[k], 3) == Some(t);
            lemma_entity_texts_in_order(entities[i]);
            assert(entity_texts(entities[i]).contains(t));
        }
    }
    assert(remarks_texts(remarks).contains(t) <==> exists|i: int, k: int|
        0 <= i < remarks.len() && 0 <= k < member_list(remarks[i], "descrição"@).len()
            && #[trigger] json_text(member_list(remarks[i], "descrição"@)[k]) == Some(t)) by {
        if remarks_texts(remarks).contains(t) {
            let i = choose|i: int| 0 <= i < remarks.len() && #[trigger] remark_texts(
                remarks[i],
            ).contains(t);
            lemma_string_items_contains(member_list(remarks[i], "descrição"@), t);
            let k = choose|k: int|
                0 <= k < member_list(remarks[i], "descrição"@).len() && #[trigger] json_text(
                    member_list(remarks[i], "descrição"@)[k],
                ) == Some(t);
            assert(json_text(member_list(remarks[i], "descrição"@)[k]) == Some(t));
        }
        if exists|i: int, k: int|
            0 <= i < remarks.len() && 0 <= k < member_list(remarks[i], "descrição"@).len()
                && #[trigger] json_text(member_list(remarks[i], "descrição"@)[k]) == Some(t) {
            let (i, k) = choose|i: int, k: int|
                0 <= i < remarks.len() && 0 <= k < member_list(remarks[i], "descrição"@).len()
                    && #[trigger] json_text(member_list(remarks[i], "descrição"@)[k]) == Some(t);
            lemma_string_items_contains(member_list(remarks[i], "descrição"@), t);
            assert(remark_texts(remarks[i]).contains(t));
        }
    }
}

/// A name is among those found in a registry answer exactly where the
/// pattern captures it in one of the answer's name sources: in particular,
/// every name captured in element 3 of any vCard property of any entity is
/// found.
pub proof fn lemma_found_names_exact(pattern: Seq<char>, doc: Json, x: Seq<char>)
    ensures
        matched_names(pattern, name_sources(doc)).contains(x) <==> exists|t: Seq<char>|
            #[trigger] is_name_source(doc, t) && somes(regex_group1_captures(pattern, t)).contains(
                x,
            ),
{
    let texts = name_sources(doc);
    lemma_matched_names_contains(pattern, texts, x);
    if matched_names(pattern, texts).contains(x) {
        let i = choose|i: int|
            0 <= i < texts.len() && #[trigger] somes(regex_group1_captures(pattern, texts[i])).contains(x);
        lemma_name_sources_exact(doc, texts[i]);
        assert(texts.contains(texts[i]));
        assert(is_name_source(doc, texts[i]));
    }
    if exists|t: Seq<char>|
        #[trigger] is_name_source(doc, t) && somes(regex_group1_captures(pattern, t)).contains(x) {
        let t = choose|t: Seq<char>|
            #[trigger] is_name_source(doc, t) && somes(regex_group1_captures(pattern, t)).contains(x);
        lemma_name_sources_exact(doc, t);
        let i = choose|i: int| 0 <= i < texts.len() && texts[i] == t;
        assert(somes(regex_group1_captures(pattern, texts[i])).contains(x));
    }
}

/// Two strictly sorted lists of the same strings are the same list.
pub proof fn lemma_sorted_unique_determined(a: Seq<Seq<char>>, b: Seq<Seq<char>>)
    requires
        strictly_sorted(a),
        strictly_sorted(b),
        a.to_set() == b.to_set(),
    ensures
        a == b,
    decreases a.len(),
{
    if a.len() == 0 {
        if b.len() > 0 {
            assert(b.to_set().contains(b[0]));
        }
        assert(a =~= b);
    } else if b.len() == 0 {
        assert(a.to_set().contains(a[0]));
    } else {
        // the first elements are each the least of the common set
        assert(a.to_set().contains(a[0]) && b.to_set().contains(b[0]));
        let i = choose|i: int| 0 <= i < b.len() && b[i] == a[0];
        let j = choose|j: int| 0 <= j < a.len() && a[j] == b[0];
        if a[0] != b[0] {
            assert(i > 0 && j > 0);
            assert(lex_lt(b[0], b[i]));
            assert(lex_lt(a[0], a[j]));
            lemma_lex_asymmetric(a[0], b[0]);
        }
        let ra = a.drop_first();
        let rb = b.drop_first();
        assert(strictly_sorted(ra)) by {
            assert forall|p: int, q: int| 0 <= p < q < ra.len() implies lex_lt(#[trigger] ra[p], #[trigger] ra[q]) by {
                assert(lex_lt(a[p + 1], a[q + 1]));
            }
        }
        assert(strictly_sorted(rb)) by {
            assert forall|p: int, q: int| 0 <= p < q < rb.len() implies lex_lt(#[trigger] rb[p], #[trigger] rb[q]) by {
                assert(lex_lt(b[p + 1], b[q + 1]));
            }
        }
        assert(ra.to_set() =~= rb.to_set()) by {
            assert forall|x: Seq<char>| ra.to_set().contains(x) implies rb.to_set().contains(x) by {
                let p = choose|p: int| 0 <= p < ra.len() && ra[p] == x;
                assert(lex_lt(a[0], a[p + 1]));
                lemma_lex_irreflexive(a[0]);
                assert(a.to_set().contains(x));
                let q = choose|q: int| 0 <= q < b.len() && b[q] == x;
                assert(q != 0);
                assert(rb[q - 1] == x);
            }
            assert forall|x: Seq<char>| rb.to_set().contains(x) implies ra.to_set().contains(x) by {
                let p = choose|p: int| 0 <= p < rb.len() && rb[p] == x;
                assert(lex_lt(b[0], b[p + 1]));
                lemma_lex_irreflexive(b[0]);
                assert(b.to_set().contains(x));
                let q = choose|q: int| 0 <= q < a.len() && a[q] == x;
                assert(q != 0);
                assert(ra[q - 1] == x);
            }
        }
        lemma_sorted_unique_determined(ra, rb);
        assert(a =~= seq![a[0]] + ra);
        assert(b =~= seq![b[0]] + rb);
    }
}

/// Two registry answers give the same company names, and the same errors,
/// where they differ only in the order of their entities, of their
/// remarks, or of the lines of a remark's description: they have the same
/// `nome`, every entity of one is an entity of the other, and every remark
/// of one has the texts of some remark of the other. `extract_company_names`
/// then gives `Ok` of one and the same list, or `NoCompanyNamesFound`, for
/// both.
pub proof fn lemma_extraction_ignores_order(pattern: Seq<char>, a: Json, b: Json)
    requires
        json_field(a, "nome"@) == json_field(b, "nome"@),
        member_list(a, "entidades"@).to_set() == member_list(b, "entidades"@).to_set(),
        forall|r: Json|
            #[trigger] member_list(a, "observações"@).contains(r) ==> exists|q: Json|
                member_list(b, "observações"@).contains(q) && #[trigger] remark_texts(q).to_set()
                    == remark_texts(r).to_set(),
        forall|q: Json|
            #[trigger] member_list(b, "observações"@).contains(q) ==> exists|r: Json|
                member_list(a, "observações"@).contains(r) && #[trigger] remark_texts(r).to_set()
                    == remark_texts(q).to_set(),
    ensures
        name_sources(a).to_set() == name_sources(b).to_set(),
        matched_names(pattern, name_sources(a)).to_set() == matched_names(
            pattern,
            name_sources(b),
        ).to_set(),
        matched_names(pattern, name_sources(a)).len() == 0 <==> matched_names(
            pattern,
            name_sources(b),
        ).len() == 0,
{
    broadcast use vstd::seq_lib::lemma_seq_concat_contains_all_elements;

    let ea = member_list(a, "entidades"@);
    let eb = member_list(b, "entidades"@);
    let ra = member_list(a, "observações"@);
    let rb = member_list(b, "observações"@);
    assert forall|x: Seq<char>| name_sources(a).contains(x) <==> name_sources(b).contains(x) by {
        lemma_entities_texts_contains(ea, x);
        lemma_entities_texts_contains(eb, x);
        lemma_remarks_texts_contains(ra, x);
        lemma_remarks_texts_contains(rb, x);
        if entities_texts(ea).contains(x) {
            let i = choose|i: int| 0 <= i < ea.len() && #[trigger] entity_texts(ea[i]).contains(x);
            assert(ea.to_set().contains(ea[i]));
            let j = choose|j: int| 0 <= j < eb.len() && eb[j] == ea[i];
            assert(entity_texts(eb[j]).contains(x));
        }
        if entities_texts(eb).contains(x) {
            let i = choose|i: int| 0 <= i < eb.len() && #[trigger] entity_texts(eb[i]).contains(x);
            assert(eb.to_set().contains(eb[i]));
            let j = choose|j: int| 0 <= j < ea.len() && ea[j] == eb[i];
            assert(entity_texts(ea[j]).contains(x));
        }
        if remarks_texts(ra).contains(x) {
            let i = choose|i: int| 0 <= i < ra.len() && #[trigger] remark_texts(ra[i]).contains(x);
            assert(ra.contains(ra[i]));
            let q = choose|q: Json| rb.contains(q) && #[trigger] remark_texts(q).to_set()
                == remark_texts(ra[i]).to_set();
            assert(remark_texts(ra[i]).to_set().contains(x));
            assert(remark_texts(q).contains(x));
            let j = choose|j: int| 0 <= j < rb.len() && rb[j] == q;
            assert(remark_texts(rb[j]).contains(x));
        }
        if remarks_texts(rb).contains(x) {
            let i = choose|i: int| 0 <= i < rb.len() && #[trigger] remark_texts(rb[i]).contains(x);
            assert(rb.contains(rb[i]));
            let r = choose|r: Json| ra.contains(r) && #[trigger] remark_texts(r).to_set()
                == remark_texts(rb[i]).to_set();
            assert(remark_texts(rb[i]).to_set().contains(x));
            assert(remark_texts(r).contains(x));
            let j = choose|j: int| 0 <= j < ra.len() && ra[j] == r;
            assert(remark_texts(ra[j]).contains(x));
        }
    }
    assert(name_sources(a).to_set() =~= name_sources(b).to_set());
    lemma_same_texts_same_names(pattern, name_sources(a), name_sources(b));
    let na = matched_names(pattern, name_sources(a));
    let nb = matched_names(pattern, name_sources(b));
    if na.len() > 0 {
        assert(na.to_set().contains(na[0]));
        assert(nb.contains(na[0]));
    }
    if nb.len() > 0 {
        assert(nb.to_set().contains(nb[0]));
        assert(na.contains(nb[0]));
    }
}

/// The lines of a description in another order give a remark the same texts.
pub proof fn lemma_reordered_description(r: Json, q: Json)
    requires
        member_list(r, "descrição"@).to_set() == member_list(q, "descrição"@).to_set(),
    ensures
        remark_texts(r).to_set() == remark_texts(q).to_set(),
{
    let lr = member_list(r, "descrição"@);
    let lq = member_list(q, "descrição"@);
    assert forall|x: Seq<char>| remark_texts(r).contains(x) <==> remark_texts(q).contains(x) by {
        lemma_string_items_contains(lr, x);
        lemma_string_items_contains(lq, x);
        if remark_texts(r).contains(x) {
            let i = choose|i: int| 0 <= i < lr.len() && #[trigger] json_text(lr[i]) == Some(x);
            assert(lr.to_set().contains(lr[i]));
            let j = choose|j: int| 0 <= j < lq.len() && lq[j] == lr[i];
            assert(json_text(lq[j]) == Some(x));
        }
        if remark_texts(q).contains(x) {
            let i = choose|i: int| 0 <= i < lq.len() && #[trigger] json_text(lq[i]) == Some(x);
            assert(lq.to_set().contains(lq[i]));
            let j = choose|j: int| 0 <= j < lr.len() && lr[j] == lq[i];
            assert(json_text(lr[j]) == Some(x));
        }
    }
    assert(remark_texts(r).to_set() =~= remark_texts(q).to_set());
}

/// Appends the text of `v`, where it is a string, to `out`.
fn push_text(out: &mut Vec<String>, v: Option<&Json>)
    ensures
        views(final(out)@) == views(old(out)@) + text_of(
            match v {
                Some(x) => Some(*x),
                None => None,
            },
        ),
{
    if let Some(x) = v {
        if let Some(s) = x.as_str() {
            out.push(s.clone());
            assert(views(out@) =~= views(old(out)@) + seq![s@]);
            return ;
        }
    }
    assert(views(out@) =~= views(old(out)@));
}

/// Appends the texts of the string elements of `items` to `out`.
fn push_string_items(out: &mut Vec<String>, items: &Vec<Json>)
    ensures
        views(final(out)@) == views(old(out)@) + string_items(items@),
{
    let mut i: usize = 0;
    while i < items.len()
        invariant
            i <= items.len(),
            views(out@) == views(old(out)@) + string_items(items@.take(i as int)),
        decreases items.len() - i,
    {
        assert(items@.take(i + 1).drop_last() =~= items@.take(i as int));
        push_text(out, Some(&items[i]));
        i = i + 1;
    }
    assert(items@.take(items.len() as int) =~= items@);
}

/// Appends the texts of the vCard properties `props` to `out`.
fn push_vcard_texts(out: &mut Vec<String>, props: &Vec<Json>)
    ensures
        views(final(out)@) == views(old(out)@) + vcard_texts(props@),
{
    let mut i: usize = 0;
    while i < props.len()
        invariant
            i <= props.len(),
            views(out@) == views(old(out)@) + vcard_texts(props@.take(i as int)),
        decreases props.len() - i,
    {
        assert(props@.take(i + 1).drop_last() =~= props@.take(i as int));
        push_text(out, props[i].get_index(3));
        i = i + 1;
    }
    assert(props@.take(props.len() as int) =~= props@);
}

/// Appends the texts of an entity to `out`.
fn push_entity_texts(out: &mut Vec<String>, entity: &Json)
    ensures
        views(final(out)@) == views(old(out)@) + entity_texts(*entity),
{
    if let Some(card) = entity.get("vcardArray") {
        if let Some(parts) = card.as_array() {
            if parts.len() > 1 {
                if let Some(props) = parts[1].as_array() {
                    push_vcard_texts(out, props);
                    return ;
                }
            }
        }
    }
    assert(views(out@) =~= views(old(out)@) + seq![]);
}

/// Appends the texts of a remark to `out`.
fn push_remark_texts(out: &mut Vec<String>, remark: &Json)
    ensures
        views(final(out)@) == views(old(out)@) + remark_texts(*remark),
{
    if let Some(d) = remark.get("descrição") {
        if let Some(lines) = d.as_array() {
            push_string_items(out, lines);
            return ;
        }
    }
    assert(views(out@) =~= views(old(out)@) + seq![]);
}

/// The texts of a registry answer that company names are looked for in.
pub fn company_name_sources(doc: &Json) -> (r: Vec<String>)
    ensures
        views(r@) == name_sources(*doc),
{
    let mut out: Vec<String> = Vec::new();
    push_text(&mut out, doc.get("nome"));
    let ghost after_name = views(out@);
    if let Some(e) = doc.get("entidades") {
        if let Some(entities) = e.as_array() {
            let mut i: usize = 0;
            while i < entities.len()
                invariant
                    i <= entities.len(),
                    views(out@) == after_name + entities_texts(entities@.take(i as int)),
                decreases entities.len() - i,
            {
                assert(entities@.take(i + 1).drop_last() =~= entities@.take(i as int));
                push_entity_texts(&mut out, &entities[i]);
                assert(views(out@) =~= after_name + entities_texts(entities@.take(i + 1)));
                i = i + 1;
            }
            assert(entities@.take(entities.len() as int) =~= entities@);
        }
    }
    let ghost after_entities = views(out@);
    if let Some(o) = doc.get("observações") {
        if let Some(remarks) = o.as_array() {
            let mut i: usize = 0;
            while i < remarks.len()
                invariant
                    i <= remarks.len(),
                    views(out@) == after_entities + remarks_texts(remarks@.take(i as int)),
                decreases remarks.len() - i,
            {
                assert(remarks@.take(i + 1).drop_last() =~= remarks@.take(i as int));
                push_remark_texts(&mut out, &remarks[i]);
                assert(views(out@) =~= after_entities + remarks_texts(remarks@.take(i + 1)));
                i = i + 1;
            }
            assert(remarks@.take(remarks.len() as int) =~= remarks@);
        }
    }
    assert(views(out@) =~= name_sources(*doc));
    out
}

/// The company names that `matcher` finds in `texts`, sorted and without
/// repetitions.
pub fn matched_company_names(matcher: &CompanyMatcher, texts: &Vec<String>) -> (r: Vec<String>)
    ensures
        strictly_sorted(views(r@)),
        views(r@).to_set() == matched_names(matcher@, views(texts@)).to_set(),
{
    let mut acc: Vec<String> = Vec::new();
    let ghost mut all: Seq<Seq<char>> = seq![];
    let mut i: usize = 0;
    assert(views(acc@).to_set() =~= all.to_set());
    while i < texts.len()
        invariant
            i <= texts.len(),
            strictly_sorted(views(acc@)),
            views(acc@).to_set() == all.to_set(),
            all == matched_names(matcher@, views(texts@).take(i as int)),
        decreases texts.len() - i,
    {
        let caps = group1_captures(matcher, texts[i].as_str());
        let ghost before = all;
        let mut j: usize = 0;
        while j < caps.len()
            invariant
                i < texts.len(),
                j <= caps.len(),
                strictly_sorted(views(acc@)),
                views(acc@).to_set() == all.to_set(),
                all == before + somes(opt_views(caps@).take(j as int)),
            decreases caps.len() - j,
        {
            assert(opt_views(caps@).take(j + 1).drop_last() =~= opt_views(caps@).take(j as int));
            match &caps[j] {
                Some(name) => {
                    insert_sorted_unique(&mut acc, name.clone());
                    proof {
                        let old_all = all;
                        all = all.push(name@);
                        assert(all.to_set() =~= old_all.to_set().insert(name@)) by {
                            broadcast use vstd::seq_lib::lemma_seq_contains_after_push;
                        }
                        assert(all =~= before + somes(opt_views(caps@).take(j + 1)));
                    }
                },
                None => {
                    assert(all =~= before + somes(opt_views(caps@).take(j + 1)));
                },
            }
            j = j + 1;
        }
        proof {
            assert(opt_views(caps@).take(caps.len() as int) =~= opt_views(caps@));
            let vt = views(texts@);
            assert(vt.take(i + 1).drop_last() =~= vt.take(i as int));
            assert(vt.take(i + 1).last() == texts@[i as int]@);
            assert(all =~= matched_names(matcher@, vt.take(i + 1)));
        }
        i = i + 1;
    }
    assert(views(texts@).take(texts.len() as int) =~= views(texts@));
    acc
}

/// Reads the company names out of a registry answer: every name that the
/// matcher captures in the answer's `name_sources`, sorted and without
/// repetitions. An answer that is no JSON document gives
/// `JsonParsingFailed`; one in which no name is found gives
/// `NoCompanyNamesFound`.
pub fn extract_company_names(json_str: &str, matcher: &CompanyMatcher) -> (r: Result<
    Vec<String>,
    ReverseipError,
>)
    ensures
        match json_document(json_str@) {
            None => r matches Err(ReverseipError::JsonParsingFailed(_)),
            Some(doc) => {
                let names = matched_names(matcher@, name_sources(doc));
                if names.len() == 0 {
                    r matches Err(ReverseipError::NoCompanyNamesFound)
                } else {
                    &&& r matches Ok(v)
                    &&& strictly_sorted(views(v@))
                    &&& views(v@).to_set() == names.to_set()
                }
            },
        },
{
    let parsed = match parse_json(json_str) {
        Ok(doc) => doc,
        Err(e) => {
            return Err(ReverseipError::JsonParsingFailed(e));
        },
    };
    let sources = company_name_sources(&parsed);
    let companies = matched_company_names(matcher, &sources);
    let ghost names = matched_names(matcher@, name_sources(parsed));
    if companies.len() == 0 {
        proof {
            if names.len() > 0 {
                assert(names.to_set().contains(names[0]));
                assert(views(companies@).to_set().contains(names[0]));
            }
        }
        Err(ReverseipError::NoCompanyNamesFound)
    } else {
        proof {
            assert(views(companies@).to_set().contains(views(companies@)[0]));
            assert(names.to_set().contains(views(companies@)[0]));
        }
        Ok(companies)
    }
}

} // verus!
