//! The document model: the already-deserialized shape of an OpenAPI/Swagger
//! document (v2 "definitions" or v3 "components/schemas" style). The loader
//! produces values of these types; the parser only reads them.

use vstd::prelude::*;

verus! {

/// The HTTP methods an operation may declare. Method names are parsed
/// case-insensitively and canonicalized to lowercase.
#[derive(Clone, Copy, PartialEq, Eq, Structural, Debug)]
pub enum MethodVariant {
    GET,
    POST,
    PUT,
    PATCH,
    DELETE,
}

/// The closed set of `type` tags a raw schema node may carry.
#[derive(Clone, Copy, PartialEq, Eq, Structural, Debug)]
pub enum SchemaType {
    STRING,
    NUMBER,
    INTEGER,
    BOOLEAN,
    ARRAY,
    OBJECT,
    NULL,
}

/// A raw schema node: either a `$ref` to a named schema, or a typed node
/// with optional `properties`, `items` and `enum` sub-structure.
pub struct Schema {
    pub reference: Option<String>,
    pub type_tag: Option<SchemaType>,
    pub properties: Option<Vec<(String, Option<Schema>)>>,
    pub items: Option<Box<Schema>>,
    pub enum_variants: Option<Vec<String>>,
}

/// One declared operation parameter; `name` and `schema` are both needed
/// for the parameter to contribute to the IR.
pub struct MethodParams {
    pub name: Option<String>,
    pub description: Option<String>,
    pub required: Option<bool>,
    pub schema: Option<Schema>,
}

/// The schema carried under one media type of a request or response body.
pub struct Content {
    pub schema: Option<Schema>,
}

/// A body's media-type table; only `application/json` is consulted.
pub struct ResponseContent {
    pub json: Option<Content>,
    pub form_data: Option<Content>,
}

/// A request or response body container.
pub struct Response {
    pub content: Option<ResponseContent>,
}

/// One operation: its parameters, optional request body, and responses
/// keyed by a string status code.
pub struct Method {
    pub operations_id: Option<String>,
    pub parameters: Option<Vec<MethodParams>>,
    pub request_body: Option<Response>,
    pub responses: Option<Vec<(String, Option<Response>)>>,
}

/// The two name->schema namespaces: `schemas` (v3) and `definitions` (v2).
pub struct Components {
    pub schemas: Option<Vec<(String, Option<Schema>)>>,
    pub definitions: Option<Vec<(String, Option<Schema>)>>,
}

/// The root document: paths, each mapping method names to operations,
/// plus the optional schema namespaces.
pub struct OpenAPI {
    pub paths: Option<Vec<(String, Option<Vec<(String, Method)>>)>>,
    pub components: Option<Components>,
}

/// The canonical lowercase name of a method variant.
pub open spec fn method_name_spec(m: MethodVariant) -> Seq<char> {
    match m {
        MethodVariant::GET => "get"@,
        MethodVariant::POST => "post"@,
        MethodVariant::PUT => "put"@,
        MethodVariant::PATCH => "patch"@,
        MethodVariant::DELETE => "delete"@,
    }
}

/// ASCII-lowercase a single character; anything outside `A`..`Z` is kept.
pub open spec fn lower_char_spec(c: char) -> char {
    if 'A' <= c && c <= 'Z' {
        ((c as u8) + 32) as char
    } else {
        c
    }
}

/// ASCII-lowercase a whole character sequence.
pub open spec fn lower_spec(s: Seq<char>) -> Seq<char> {
    s.map_values(|c: char| lower_char_spec(c))
}

/// Case-insensitive parse of a method name; unknown names give `None`.
pub open spec fn method_of_name_spec(s: Seq<char>) -> Option<MethodVariant> {
    if lower_spec(s) == "get"@ {
        Some(MethodVariant::GET)
    } else if lower_spec(s) == "post"@ {
        Some(MethodVariant::POST)
    } else if lower_spec(s) == "put"@ {
        Some(MethodVariant::PUT)
    } else if lower_spec(s) == "patch"@ {
        Some(MethodVariant::PATCH)
    } else if lower_spec(s) == "delete"@ {
        Some(MethodVariant::DELETE)
    } else {
        None
    }
}

impl MethodVariant {
    /// The canonical lowercase name, as placed into a `Request`.
    pub fn as_str(&self) -> (r: &'static str)
        ensures
            r@ == method_name_spec(*self),
    {
        match self {
            MethodVariant::GET => "get",
            MethodVariant::POST => "post",
            MethodVariant::PUT => "put",
            MethodVariant::PATCH => "patch",
            MethodVariant::DELETE => "delete",
        }
    }

    /// Case-insensitive parse of a method name string.
    pub fn parse(s: &str) -> (r: Option<MethodVariant>)
        ensures
            r == method_of_name_spec(s@),
    {
        if str_eq_lowered(s, "get") {
            Some(MethodVariant::GET)
        } else if str_eq_lowered(s, "post") {
            Some(MethodVariant::POST)
        } else if str_eq_lowered(s, "put") {
            Some(MethodVariant::PUT)
        } else if str_eq_lowered(s, "patch") {
            Some(MethodVariant::PATCH)
        } else if str_eq_lowered(s, "delete") {
            Some(MethodVariant::DELETE)
        } else {
            proof {
                reveal_strlit("get");
                reveal_strlit("post");
                reveal_strlit("put");
                reveal_strlit("patch");
                reveal_strlit("delete");
            }
            None
        }
    }
}

/// ASCII-lowercase one character.
fn lower_char(c: char) -> (r: char)
    ensures
        r == lower_char_spec(c),
{
    if 'A' <= c && c <= 'Z' {
        ((c as u8) + 32) as char
    } else {
        c
    }
}

/// Does `s`, lowered character by character, equal `t` exactly?
fn str_eq_lowered(s: &str, t: &str) -> (r: bool)
    ensures
        r == (lower_spec(s@) == t@),
{
    let ns = s.unicode_len();
    let nt = t.unicode_len();
    if ns != nt {
        proof {
            assert(lower_spec(s@).len() == s@.len());
        }
        return false;
    }
    let mut i: usize = 0;
    while i < ns
        invariant
            i <= ns,
            ns == s@.len(),
            ns == t@.len(),
            forall|j: int| 0 <= j < i ==> lower_char_spec(s@[j]) == t@[j],
        decreases ns - i,
    {
        let c = lower_char(s.get_char(i));
        if c != t.get_char(i) {
            proof {
                assert(lower_spec(s@)[i as int] != t@[i as int]);
            }
            return false;
        }
        i += 1;
    }
    proof {
        assert(lower_spec(s@) =~= t@);
    }
    true
}

} // verus!
