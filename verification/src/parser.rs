//! The schema resolution and IR-construction engine: recursive descent from
//! raw schema nodes to typed `SchemaType` trees, reference resolution across
//! the v3/v2 namespaces, the lazily populated reference cache, and the
//! collector that emits one `Request` per declared path/method.

use vstd::prelude::*;

use crate::document;
use crate::document::{Components, Method, MethodParams, MethodVariant, OpenAPI, Response, Schema};
use crate::logger::Logger;

verus! {

/// The kind of a primitive IR node.
#[derive(Clone, Copy, PartialEq, Eq, Structural, Debug)]
pub enum PrimitiveType {
    String,
    Integer,
    Number,
    Boolean,
}

/// A primitive IR node: its kind and the source's `enum` literals, if any.
pub struct Primitive {
    pub kind: PrimitiveType,
    pub enum_values: Option<Vec<String>>,
}

/// The typed IR of one schema: a primitive, an array of an element type,
/// an object of named fields, or an unresolved pointer to a named schema.
pub enum SchemaType {
    Primitive(Primitive),
    Array(Box<SchemaType>),
    Object(Vec<(String, SchemaType)>),
    Ref(String),
}

/// One collected operation: its path, canonical lowercase method, and the
/// IR of its parameters, request body and per-status responses.
pub struct Request {
    pub path: String,
    pub method: String,
    pub params: Option<Vec<(String, SchemaType)>>,
    pub body: Option<SchemaType>,
    pub responses: Option<Vec<(u16, SchemaType)>>,
}

/// The engine's state: the document under traversal, the diagnostic trace,
/// the requests collected so far, and the reference cache.
pub struct Parser {
    pub openapi: OpenAPI,
    pub log: Logger,
    pub reqs: Vec<Request>,
    pub refs: Vec<(String, SchemaType)>,
}

/// The mathematical shape of an IR node: strings as character sequences,
/// field lists as sequences of named nodes.
pub enum SchemaTypeModel {
    Primitive { kind: PrimitiveType, enum_values: Option<Seq<Seq<char>>> },
    Array(Box<SchemaTypeModel>),
    Object(Seq<(Seq<char>, SchemaTypeModel)>),
    Ref(Seq<char>),
}

/// The mathematical shape of one collected request.
pub struct RequestModel {
    pub path: Seq<char>,
    pub method: Seq<char>,
    pub params: Option<Seq<(Seq<char>, SchemaTypeModel)>>,
    pub body: Option<SchemaTypeModel>,
    pub responses: Option<Seq<(u16, SchemaTypeModel)>>,
}

/// The model of an optional `enum` literal list.
pub open spec fn enum_values_view(o: Option<Vec<String>>) -> Option<Seq<Seq<char>>> {
    match o {
        None => None,
        Some(v) => Some(v.deep_view()),
    }
}

/// The model of an IR node.
pub open spec fn st_view(t: SchemaType) -> SchemaTypeModel
    decreases t,
{
    match t {
        SchemaType::Primitive(p) => SchemaTypeModel::Primitive {
            kind: p.kind,
            enum_values: enum_values_view(p.enum_values),
        },
        SchemaType::Array(b) => SchemaTypeModel::Array(Box::new(st_view(*b))),
        SchemaType::Object(fields) => SchemaTypeModel::Object(fields_view(fields@)),
        SchemaType::Ref(n) => SchemaTypeModel::Ref(n@),
    }
}

/// The model of an object's field list.
pub open spec fn fields_view(s: Seq<(String, SchemaType)>) -> Seq<(Seq<char>, SchemaTypeModel)>
    decreases s,
{
    if s.len() == 0 {
        Seq::empty()
    } else {
        fields_view(s.subrange(0, s.len() - 1)).push(
            (s[s.len() - 1].0@, st_view(s[s.len() - 1].1)),
        )
    }
}

/// The model of an optional IR node.
pub open spec fn st_view_opt(r: Option<SchemaType>) -> Option<SchemaTypeModel> {
    match r {
        None => None,
        Some(t) => Some(st_view(t)),
    }
}

impl View for SchemaType {
    type V = SchemaTypeModel;

    open spec fn view(&self) -> SchemaTypeModel {
        st_view(*self)
    }
}

/// The model of a request's parameter or field list.
pub open spec fn named_list_view(s: Seq<(String, SchemaType)>) -> Seq<(Seq<char>, SchemaTypeModel)> {
    fields_view(s)
}

/// The model of a request's response table.
pub open spec fn responses_view(s: Seq<(u16, SchemaType)>) -> Seq<(u16, SchemaTypeModel)> {
    s.map_values(|p: (u16, SchemaType)| (p.0, st_view(p.1)))
}

impl View for Request {
    type V = RequestModel;

    open spec fn view(&self) -> RequestModel {
        RequestModel {
            path: self.path@,
            method: self.method@,
            params: match self.params {
                None => None,
                Some(v) => Some(named_list_view(v@)),
            },
            body: st_view_opt(self.body),
            responses: match self.responses {
                None => None,
                Some(v) => Some(responses_view(v@)),
            },
        }
    }
}

/// The model of the reference cache: name/IR pairs in insertion order.
pub open spec fn refs_view(s: Seq<(String, SchemaType)>) -> Seq<(Seq<char>, SchemaTypeModel)> {
    fields_view(s)
}

// ---------------------------------------------------------------------------
// Reference names
// ---------------------------------------------------------------------------
/// The final path segment of a reference string: everything after the last
/// `/`, or the whole string when it holds none.
pub open spec fn ref_name_spec(s: Seq<char>) -> Seq<char>
    decreases s.len(),
{
    if s.len() == 0 {
        s
    } else if s[s.len() - 1] == '/' {
        Seq::empty()
    } else {
        ref_name_spec(s.subrange(0, s.len() - 1)).push(s[s.len() - 1])
    }
}

/// A suffix free of `/` and cut directly after a `/` (or at the start)
/// is exactly the final path segment.
proof fn lemma_ref_name_suffix(s: Seq<char>, i: int)
    requires
        0 <= i <= s.len(),
        i > 0 ==> s[i - 1] == '/',
        forall|k: int| i <= k < s.len() ==> s[k] != '/',
    ensures
        ref_name_spec(s) =~= s.subrange(i, s.len() as int),
    decreases s.len(),
{
    if s.len() == 0 {
    } else if i == s.len() {
        assert(s[s.len() - 1] == '/');
    } else {
        let t = s.subrange(0, s.len() - 1);
        lemma_ref_name_suffix(t, i);
        assert(t.subrange(i, t.len() as int) =~= s.subrange(i, s.len() - 1));
        assert(ref_name_spec(s) == ref_name_spec(t).push(s[s.len() - 1]));
    }
}

// ---------------------------------------------------------------------------
// Status-code keys
// ---------------------------------------------------------------------------
pub open spec fn is_digit_char(c: char) -> bool {
    '0' <= c && c <= '9'
}

pub open spec fn digit_of(c: char) -> int {
    c as int - '0' as int
}

pub open spec fn all_digits(s: Seq<char>) -> bool {
    forall|i: int| 0 <= i < s.len() ==> is_digit_char(#[trigger] s[i])
}

/// The number a digit string denotes, most significant digit first.
pub open spec fn digits_val(s: Seq<char>) -> int
    decreases s.len(),
{
    if s.len() == 0 {
        0
    } else {
        digits_val(s.subrange(0, s.len() - 1)) * 10 + digit_of(s[s.len() - 1])
    }
}

/// What parsing a status-code key as an unsigned 16-bit integer yields:
/// an optional leading `+`, then at least one digit, value at most 65535.
pub open spec fn parse_u16_spec(s: Seq<char>) -> Option<u16> {
    let body = if s.len() > 0 && s[0] == '+' {
        s.subrange(1, s.len() as int)
    } else {
        s
    };
    if body.len() > 0 && all_digits(body) && digits_val(body) <= u16::MAX {
        Some(digits_val(body) as u16)
    } else {
        None
    }
}

proof fn lemma_digits_nonneg(s: Seq<char>)
    requires
        all_digits(s),
    ensures
        digits_val(s) >= 0,
    decreases s.len(),
{
    if s.len() > 0 {
        let t = s.subrange(0, s.len() - 1);
        assert(all_digits(t));
        lemma_digits_nonneg(t);
    }
}

/// A digit string is worth at least any of its prefixes.
proof fn lemma_digits_prefix_le(s: Seq<char>, k: int)
    requires
        all_digits(s),
        0 <= k <= s.len(),
    ensures
        digits_val(s.subrange(0, k)) <= digits_val(s),
    decreases s.len() - k,
{
    if k == s.len() {
        assert(s.subrange(0, k) =~= s);
    } else {
        let u = s.subrange(0, k + 1);
        assert(u.subrange(0, u.len() - 1) =~= s.subrange(0, k));
        assert(all_digits(s.subrange(0, k)));
        lemma_digits_nonneg(s.subrange(0, k));
        assert(digits_val(u) == digits_val(s.subrange(0, k)) * 10 + digit_of(s[k]));
        assert(digit_of(s[k]) >= 0);
        lemma_digits_prefix_le(s, k + 1);
    }
}

/// Parse a status-code key as an unsigned 16-bit integer, as the response
/// table requires; anything else is a malformed key.
pub fn parse_u16(s: &str) -> (r: Option<u16>)
    ensures
        r == parse_u16_spec(s@),
{
    let n = s.unicode_len();
    if n == 0 {
        return None;
    }
    let start: usize = if s.get_char(0) == '+' {
        1
    } else {
        0
    };
    let ghost body = if s@[0] == '+' {
        s@.subrange(1, s@.len() as int)
    } else {
        s@
    };
    proof {
        assert(forall|j: int| 0 <= j < body.len() ==> body[j] == s@[j + start]);
    }
    if start == n {
        return None;
    }
    let mut acc: u32 = 0;
    let mut i: usize = start;
    while i < n
        invariant
            start <= i <= n,
            n == s@.len(),
            start == 1 ==> s@[0] == '+',
            start == 0 ==> (s@.len() == 0 || s@[0] != '+'),
            body == (if s@.len() > 0 && s@[0] == '+' {
                s@.subrange(1, s@.len() as int)
            } else {
                s@
            }),
            body.len() == n - start,
            forall|j: int| 0 <= j < body.len() ==> body[j] == s@[j + start],
            all_digits(body.subrange(0, i - start)),
            acc == digits_val(body.subrange(0, i - start)),
            acc <= 65535,
        decreases n - i,
    {
        let c = s.get_char(i);
        let cv = c as u32;
        if cv < 48 || cv > 57 {
            proof {
                assert(body[i - start] == c);
                assert(!is_digit_char(c)) by {
                    assert('0' as u32 == 48 && '9' as u32 == 57);
                }
                assert(!all_digits(body));
            }
            return None;
        }
        let d: u32 = cv - 48;
        proof {
            assert(is_digit_char(c)) by {
                assert('0' as u32 == 48 && '9' as u32 == 57);
            }
            assert(d == digit_of(c));
        }
        let next: u32 = acc * 10 + d;
        proof {
            let pre = body.subrange(0, i - start);
            let ext = body.subrange(0, i + 1 - start);
            assert(ext.subrange(0, ext.len() - 1) =~= pre);
            assert(ext[ext.len() - 1] == body[i - start]);
            assert(digits_val(ext) == digits_val(pre) * 10 + digit_of(c));
            assert(all_digits(ext));
        }
        if next > 65535 {
            proof {
                if all_digits(body) {
                    lemma_digits_prefix_le(body, i + 1 - start);
                }
            }
            return None;
        }
        acc = next;
        i += 1;
    }
    proof {
        assert(body.subrange(0, body.len() as int) =~= body);
    }
    Some(acc as u16)
}

// ---------------------------------------------------------------------------
// The schema type builder
// ---------------------------------------------------------------------------
/// What building a whole property list yields: the field models in order,
/// or nothing as soon as any single property fails to build.
pub open spec fn props_build(s: Seq<(String, Option<Schema>)>) -> Option<
    Seq<(Seq<char>, SchemaTypeModel)>,
>
    decreases s,
{
    if s.len() == 0 {
        Some(Seq::empty())
    } else {
        match props_build(s.subrange(0, s.len() - 1)) {
            None => None,
            Some(rest) => match s[s.len() - 1].1 {
                None => None,
                Some(sch) => match build_spec(sch) {
                    None => None,
                    Some(t) => Some(rest.push((s[s.len() - 1].0@, t))),
                },
            },
        }
    }
}

/// What the schema type builder yields on a raw node: a reference edge is
/// cut immediately into `Ref` (the cycle-breaking rule); otherwise the node
/// is dispatched on its `type` tag.
pub open spec fn build_spec(s: Schema) -> Option<SchemaTypeModel>
    decreases s,
{
    if s.reference is Some {
        Some(SchemaTypeModel::Ref(ref_name_spec(s.reference->0@)))
    } else {
        match s.type_tag {
            None => None,
            Some(document::SchemaType::ARRAY) => {
                if s.items is Some {
                    match build_spec(*s.items->0) {
                        None => None,
                        Some(t) => Some(SchemaTypeModel::Array(Box::new(t))),
                    }
                } else {
                    None
                }
            },
            Some(document::SchemaType::OBJECT) => {
                if s.properties is Some {
                    match props_build(s.properties->0@) {
                        None => None,
                        Some(fs) => Some(SchemaTypeModel::Object(fs)),
                    }
                } else {
                    None
                }
            },
            Some(document::SchemaType::STRING) => Some(
                SchemaTypeModel::Primitive {
                    kind: PrimitiveType::String,
                    enum_values: enum_values_view(s.enum_variants),
                },
            ),
            Some(document::SchemaType::NUMBER) => Some(
                SchemaTypeModel::Primitive {
                    kind: PrimitiveType::Number,
                    enum_values: enum_values_view(s.enum_variants),
                },
            ),
            Some(document::SchemaType::INTEGER) => Some(
                SchemaTypeModel::Primitive {
                    kind: PrimitiveType::Integer,
                    enum_values: enum_values_view(s.enum_variants),
                },
            ),
            Some(document::SchemaType::BOOLEAN) => Some(
                SchemaTypeModel::Primitive {
                    kind: PrimitiveType::Boolean,
                    enum_values: enum_values_view(s.enum_variants),
                },
            ),
            Some(document::SchemaType::NULL) => None,
        }
    }
}

/// A property list whose prefix already fails can never build.
proof fn lemma_props_build_none_extends(s: Seq<(String, Option<Schema>)>, k: int)
    requires
        0 <= k <= s.len(),
        props_build(s.subrange(0, k)) is None,
    ensures
        props_build(s) is None,
    decreases s.len() - k,
{
    if k == s.len() {
        assert(s.subrange(0, k) =~= s);
    } else {
        let u = s.subrange(0, k + 1);
        assert(u.subrange(0, u.len() - 1) =~= s.subrange(0, k));
        lemma_props_build_none_extends(s, k + 1);
    }
}

// ---------------------------------------------------------------------------
// Bodies and the reference cache
// ---------------------------------------------------------------------------
/// The raw schema a body container carries: its JSON content's schema.
pub open spec fn response_schema_of(resp: Option<Response>) -> Option<Schema> {
    match resp {
        None => None,
        Some(r) => match r.content {
            None => None,
            Some(c) => match c.json {
                None => None,
                Some(ct) => ct.schema,
            },
        },
    }
}

/// What dispatching a body yields. A body whose root is a `$ref` is
/// dereferenced one level: the name must resolve and its target must
/// build, and the caller receives a `Ref` leaf; any other root is built
/// directly.
pub open spec fn body_build_spec(c: Option<Components>, resp: Option<Response>) -> Option<
    SchemaTypeModel,
> {
    match response_schema_of(resp) {
        None => None,
        Some(s) => {
            if s.reference is Some {
                let name = ref_name_spec(s.reference->0@);
                match resolve_spec(c, name) {
                    None => None,
                    Some(target) => match build_spec(target) {
                        None => None,
                        Some(_) => Some(SchemaTypeModel::Ref(name)),
                    },
                }
            } else {
                build_spec(s)
            }
        },
    }
}

/// What dispatching a body adds to the reference cache: one entry, the
/// built target under the reference's name, exactly when the body's root
/// is a `$ref` that resolves and builds; nothing otherwise.
pub open spec fn body_cache_add(c: Option<Components>, resp: Option<Response>) -> Seq<
    (Seq<char>, SchemaTypeModel),
> {
    match response_schema_of(resp) {
        None => Seq::empty(),
        Some(s) => {
            if s.reference is Some {
                let name = ref_name_spec(s.reference->0@);
                match resolve_spec(c, name) {
                    None => Seq::empty(),
                    Some(target) => match build_spec(target) {
                        None => Seq::empty(),
                        Some(t) => seq![(name, t)],
                    },
                }
            } else {
                Seq::empty()
            }
        },
    }
}

// ---------------------------------------------------------------------------
// Response tables and parameter lists
// ---------------------------------------------------------------------------
/// What a response table yields, entry by entry: a key that is no unsigned
/// 16-bit integer is skipped, a body that yields nothing is omitted, and
/// everything else lands in the table in declaration order.
pub open spec fn responses_build(
    c: Option<Components>,
    entries: Seq<(String, Option<Response>)>,
) -> Seq<(u16, SchemaTypeModel)>
    decreases entries.len(),
{
    if entries.len() == 0 {
        Seq::empty()
    } else {
        let rest = responses_build(c, entries.subrange(0, entries.len() - 1));
        let e = entries[entries.len() - 1];
        match parse_u16_spec(e.0@) {
            None => rest,
            Some(code) => match body_build_spec(c, e.1) {
                None => rest,
                Some(t) => rest.push((code, t)),
            },
        }
    }
}

/// What a response table adds to the reference cache: the additions of its
/// well-keyed entries' bodies, in order.
pub open spec fn responses_cache_add(
    c: Option<Components>,
    entries: Seq<(String, Option<Response>)>,
) -> Seq<(Seq<char>, SchemaTypeModel)>
    decreases entries.len(),
{
    if entries.len() == 0 {
        Seq::empty()
    } else {
        let rest = responses_cache_add(c, entries.subrange(0, entries.len() - 1));
        let e = entries[entries.len() - 1];
        match parse_u16_spec(e.0@) {
            None => rest,
            Some(code) => rest + body_cache_add(c, e.1),
        }
    }
}

/// What a whole operation's response field yields: nothing when the
/// operation declares none, else its table's build.
pub open spec fn responses_spec(c: Option<Components>, m: Method) -> Option<
    Seq<(u16, SchemaTypeModel)>,
> {
    match m.responses {
        None => None,
        Some(v) => Some(responses_build(c, v@)),
    }
}

/// What a whole operation's response field adds to the reference cache.
pub open spec fn responses_cache_spec(c: Option<Components>, m: Method) -> Seq<
    (Seq<char>, SchemaTypeModel),
> {
    match m.responses {
        None => Seq::empty(),
        Some(v) => responses_cache_add(c, v@),
    }
}

/// What a parameter list yields: every parameter that carries a name and a
/// schema that builds, as name/IR pairs in declaration order; the rest are
/// skipped.
pub open spec fn params_build(ps: Seq<MethodParams>) -> Seq<(Seq<char>, SchemaTypeModel)>
    decreases ps.len(),
{
    if ps.len() == 0 {
        Seq::empty()
    } else {
        let rest = params_build(ps.subrange(0, ps.len() - 1));
        let p = ps[ps.len() - 1];
        match p.schema {
            None => rest,
            Some(s) => match build_spec(s) {
                None => rest,
                Some(t) => match p.name {
                    None => rest,
                    Some(n) => rest.push((n@, t)),
                },
            },
        }
    }
}

/// What a whole operation's parameter field yields.
pub open spec fn params_spec(m: Method) -> Option<Seq<(Seq<char>, SchemaTypeModel)>> {
    match m.parameters {
        None => None,
        Some(v) => Some(params_build(v@)),
    }
}

// ---------------------------------------------------------------------------
// Collecting requests
// ---------------------------------------------------------------------------
/// The models of a request list, in order.
pub open spec fn reqs_view(s: Seq<Request>) -> Seq<RequestModel> {
    s.map_values(|r: Request| r.view())
}

/// What one operation adds to the reference cache: its request body's
/// addition, then its response table's.
pub open spec fn method_cache_spec(c: Option<Components>, m: Method) -> Seq<
    (Seq<char>, SchemaTypeModel),
> {
    body_cache_add(c, m.request_body) + responses_cache_spec(c, m)
}

/// What one declared path/method entry yields: nothing when the method
/// name is unknown, else one request with the canonical method name and
/// the operation's parameter, body and response builds.
pub open spec fn request_spec(
    c: Option<Components>,
    path: Seq<char>,
    mname: Seq<char>,
    m: Method,
) -> Option<RequestModel> {
    match document::method_of_name_spec(mname) {
        None => None,
        Some(var) => Some(
            RequestModel {
                path: path,
                method: document::method_name_spec(var),
                params: params_spec(m),
                body: body_build_spec(c, m.request_body),
                responses: responses_spec(c, m),
            },
        ),
    }
}

/// The requests one path's method table yields, in declaration order.
pub open spec fn methods_requests(
    c: Option<Components>,
    path: Seq<char>,
    entries: Seq<(String, Method)>,
) -> Seq<RequestModel>
    decreases entries.len(),
{
    if entries.len() == 0 {
        Seq::empty()
    } else {
        let rest = methods_requests(c, path, entries.subrange(0, entries.len() - 1));
        let e = entries[entries.len() - 1];
        match request_spec(c, path, e.0@, e.1) {
            None => rest,
            Some(r) => rest.push(r),
        }
    }
}

/// What one path's method table adds to the reference cache.
pub open spec fn methods_cache(c: Option<Components>, entries: Seq<(String, Method)>) -> Seq<
    (Seq<char>, SchemaTypeModel),
>
    decreases entries.len(),
{
    if entries.len() == 0 {
        Seq::empty()
    } else {
        let rest = methods_cache(c, entries.subrange(0, entries.len() - 1));
        let e = entries[entries.len() - 1];
        match document::method_of_name_spec(e.0@) {
            None => rest,
            Some(_) => rest + method_cache_spec(c, e.1),
        }
    }
}

/// The requests an optional method table yields.
pub open spec fn methods_requests_opt(
    c: Option<Components>,
    path: Seq<char>,
    methods: Option<Vec<(String, Method)>>,
) -> Seq<RequestModel> {
    match methods {
        None => Seq::empty(),
        Some(v) => methods_requests(c, path, v@),
    }
}

/// What an optional method table adds to the reference cache.
pub open spec fn methods_cache_opt(
    c: Option<Components>,
    methods: Option<Vec<(String, Method)>>,
) -> Seq<(Seq<char>, SchemaTypeModel)> {
    match methods {
        None => Seq::empty(),
        Some(v) => methods_cache(c, v@),
    }
}

/// The requests a whole path table yields, path by path.
pub open spec fn paths_requests(
    c: Option<Components>,
    paths: Seq<(String, Option<Vec<(String, Method)>>)>,
) -> Seq<RequestModel>
    decreases paths.len(),
{
    if paths.len() == 0 {
        Seq::empty()
    } else {
        let rest = paths_requests(c, paths.subrange(0, paths.len() - 1));
        let e = paths[paths.len() - 1];
        rest + methods_requests_opt(c, e.0@, e.1)
    }
}

/// What a whole path table adds to the reference cache.
pub open spec fn paths_cache(
    c: Option<Components>,
    paths: Seq<(String, Option<Vec<(String, Method)>>)>,
) -> Seq<(Seq<char>, SchemaTypeModel)>
    decreases paths.len(),
{
    if paths.len() == 0 {
        Seq::empty()
    } else {
        let rest = paths_cache(c, paths.subrange(0, paths.len() - 1));
        let e = paths[paths.len() - 1];
        rest + methods_cache_opt(c, e.1)
    }
}

/// The ordered request sequence one whole document yields.
pub open spec fn collect_spec(doc: OpenAPI) -> Seq<RequestModel> {
    match doc.paths {
        None => Seq::empty(),
        Some(v) => paths_requests(doc.components, v@),
    }
}

/// The reference cache one whole document's collection populates.
pub open spec fn collect_cache_spec(doc: OpenAPI) -> Seq<(Seq<char>, SchemaTypeModel)> {
    match doc.paths {
        None => Seq::empty(),
        Some(v) => paths_cache(doc.components, v@),
    }
}

// ---------------------------------------------------------------------------
// Laws of the builder and the resolver
// ---------------------------------------------------------------------------
/// The cycle-breaking rule: a schema whose root is a `$ref` builds to a
/// `Ref` leaf at once, whatever the reference points at — also when it
/// points, directly or through other schemas, back to itself. The builder
/// never follows a reference edge, so recursive schema graphs cannot make
/// it diverge.
pub proof fn lemma_ref_edge_is_cut(s: Schema)
    requires
        s.reference is Some,
    ensures
        build_spec(s) == Some(SchemaTypeModel::Ref(ref_name_spec(s.reference->0@))),
{
}

/// Namespace precedence: when the v3 `schemas` namespace carries an entry
/// for a name, that entry decides resolution, whatever the v2
/// `definitions` namespace holds for the same name.
pub proof fn lemma_namespace_precedence(comp: Components, name: Seq<char>)
    requires
        comp.schemas is Some,
        ns_lookup(comp.schemas->0@, name) is Some,
    ensures
        resolve_spec(Some(comp), name) == ns_lookup(comp.schemas->0@, name)->0,
{
}

/// Round trip for primitives: a non-reference schema tagged with a
/// primitive type builds to a primitive of the matching kind whose
/// `enumValues` are exactly the source's `enum` list, or absent when the
/// source carries none.
pub proof fn lemma_primitive_round_trip(s: Schema)
    requires
        s.reference is None,
        s.type_tag matches Some(k) && (k == document::SchemaType::STRING || k
            == document::SchemaType::NUMBER || k == document::SchemaType::INTEGER || k
            == document::SchemaType::BOOLEAN),
    ensures
        s.type_tag == Some(document::SchemaType::STRING) ==> build_spec(s) == Some(
            SchemaTypeModel::Primitive {
                kind: PrimitiveType::String,
                enum_values: enum_values_view(s.enum_variants),
            },
        ),
        s.type_tag == Some(document::SchemaType::NUMBER) ==> build_spec(s) == Some(
            SchemaTypeModel::Primitive {
                kind: PrimitiveType::Number,
                enum_values: enum_values_view(s.enum_variants),
            },
        ),
        s.type_tag == Some(document::SchemaType::INTEGER) ==> build_spec(s) == Some(
            SchemaTypeModel::Primitive {
                kind: PrimitiveType::Integer,
                enum_values: enum_values_view(s.enum_variants),
            },
        ),
        s.type_tag == Some(document::SchemaType::BOOLEAN) ==> build_spec(s) == Some(
            SchemaTypeModel::Primitive {
                kind: PrimitiveType::Boolean,
                enum_values: enum_values_view(s.enum_variants),
            },
        ),
{
}

/// An array schema without `items` yields no result at all, never an
/// array wrapping nothing.
pub proof fn lemma_array_requires_items(s: Schema)
    requires
        s.reference is None,
        s.type_tag == Some(document::SchemaType::ARRAY),
        s.items is None,
    ensures
        build_spec(s) is None,
{
}

/// The object short-circuit: one property that fails to build — its
/// schema absent, or of a kind that yields nothing — fails the whole
/// object, never a partial one.
pub proof fn lemma_object_short_circuit(s: Schema, i: int)
    requires
        s.reference is None,
        s.type_tag == Some(document::SchemaType::OBJECT),
        s.properties is Some,
        0 <= i < s.properties->0@.len(),
        s.properties->0@[i].1 is None || build_spec(s.properties->0@[i].1->0) is None,
    ensures
        build_spec(s) is None,
{
    let props = s.properties->0@;
    let ext = props.subrange(0, i + 1);
    assert(ext.subrange(0, ext.len() - 1) =~= props.subrange(0, i));
    assert(ext[ext.len() - 1] == props[i]);
    assert(props_build(ext) is None);
    lemma_props_build_none_extends(props, i + 1);
}

/// Clone a string list, preserving its character-sequence contents.
fn clone_string_vec(v: &Vec<String>) -> (r: Vec<String>)
    ensures
        r@ == v@,
{
    let mut r: Vec<String> = Vec::new();
    let mut i: usize = 0;
    while i < v.len()
        invariant
            i <= v.len(),
            r@ =~= v@.subrange(0, i as int),
        decreases v.len() - i,
    {
        r.push(v[i].clone());
        proof {
            assert(r@ =~= v@.subrange(0, i + 1));
        }
        i += 1;
    }
    proof {
        assert(r@ =~= v@);
    }
    r
}

/// Copy an optional `enum` literal list into the IR.
fn clone_enum_values(o: &Option<Vec<String>>) -> (r: Option<Vec<String>>)
    ensures
        enum_values_view(r) == enum_values_view(*o),
{
    match o {
        None => None,
        Some(v) => Some(clone_string_vec(v)),
    }
}

// ---------------------------------------------------------------------------
// Reference resolution
// ---------------------------------------------------------------------------
/// Looking a name up in one namespace: the first entry carrying the name
/// decides, and `None` means the namespace does not hold it at all.
pub open spec fn ns_lookup(entries: Seq<(String, Option<Schema>)>, name: Seq<char>) -> Option<
    Option<Schema>,
>
    decreases entries.len(),
{
    if entries.len() == 0 {
        None
    } else if entries[0].0@ == name {
        Some(entries[0].1)
    } else {
        ns_lookup(entries.subrange(1, entries.len() as int), name)
    }
}

/// Entries known not to match can be skipped without changing the lookup.
proof fn lemma_ns_lookup_skip(entries: Seq<(String, Option<Schema>)>, name: Seq<char>, i: int)
    requires
        0 <= i <= entries.len(),
        forall|j: int| 0 <= j < i ==> entries[j].0@ != name,
    ensures
        ns_lookup(entries, name) == ns_lookup(
            entries.subrange(i, entries.len() as int),
            name,
        ),
    decreases i,
{
    if i == 0 {
        assert(entries.subrange(0, entries.len() as int) =~= entries);
    } else {
        let rest = entries.subrange(1, entries.len() as int);
        lemma_ns_lookup_skip(rest, name, i - 1);
        assert(rest.subrange(i - 1, rest.len() as int) =~= entries.subrange(
            i,
            entries.len() as int,
        ));
    }
}

/// What resolving a reference name yields: the v3 `schemas` entry when one
/// carries the name, else the v2 `definitions` entry, else nothing. An
/// entry that carries the name but holds no schema resolves to nothing.
pub open spec fn resolve_spec(c: Option<Components>, name: Seq<char>) -> Option<Schema> {
    match c {
        None => None,
        Some(comp) => {
            let v3 = match comp.schemas {
                None => None,
                Some(v) => ns_lookup(v@, name),
            };
            match v3 {
                Some(entry) => entry,
                None => match comp.definitions {
                    None => None,
                    Some(v) => match ns_lookup(v@, name) {
                        Some(entry) => entry,
                        None => None,
                    },
                },
            }
        },
    }
}

/// Find a name's entry in one namespace, first match first.
fn ns_find<'a>(entries: &'a Vec<(String, Option<Schema>)>, name: &String) -> (r: Option<
    &'a Option<Schema>,
>)
    ensures
        match r {
            Some(e) => ns_lookup(entries@, name@) == Some(*e),
            None => ns_lookup(entries@, name@) is None,
        },
{
    let mut i: usize = 0;
    while i < entries.len()
        invariant
            i <= entries@.len(),
            forall|j: int| 0 <= j < i ==> entries@[j].0@ != name@,
        decreases entries@.len() - i,
    {
        if entries[i].0 == *name {
            proof {
                lemma_ns_lookup_skip(entries@, name@, i as int);
                let rest = entries@.subrange(i as int, entries@.len() as int);
                assert(rest[0] == entries@[i as int]);
            }
            return Some(&entries[i].1);
        }
        i += 1;
    }
    proof {
        lemma_ns_lookup_skip(entries@, name@, entries@.len() as int);
        assert(entries@.subrange(entries@.len() as int, entries@.len() as int).len() == 0);
    }
    None
}

impl Parser {
    /// The name a reference string points at: its final `/`-separated
    /// segment. Pure; never fails.
    pub fn get_schema_name_by_ref<'a>(&self, reference: &'a str) -> (r: Option<&'a str>)
        ensures
            r matches Some(name) && name@ == ref_name_spec(reference@),
    {
        let n = reference.unicode_len();
        let mut cut: usize = 0;
        let mut j: usize = 0;
        while j < n
            invariant
                j <= n,
                n == reference@.len(),
                cut <= j,
                cut > 0 ==> reference@[cut - 1] == '/',
                forall|k: int| cut <= k < j ==> reference@[k] != '/',
            decreases n - j,
        {
            if reference.get_char(j) == '/' {
                cut = j + 1;
            }
            j += 1;
        }
        let tail = reference.substring_char(cut, n);
        proof {
            lemma_ref_name_suffix(reference@, cut as int);
        }
        Some(tail)
    }

    /// Resolve a reference string to the raw schema it names: v3 `schemas`
    /// first, then v2 `definitions`. Fails exactly when neither namespace
    /// settles the name with a schema.
    pub fn get_schema_by_ref<'a>(&'a self, reference: &str) -> (r: Option<&'a Schema>)
        ensures
            match r {
                Some(s) => resolve_spec(self.openapi.components, ref_name_spec(reference@))
                    == Some(*s),
                None => resolve_spec(self.openapi.components, ref_name_spec(reference@)) is None,
            },
    {
        let name = match self.get_schema_name_by_ref(reference) {
            Some(n) => n,
            None => {
                return None;
            },
        };
        let name_owned = name.to_owned();
        let components = match &self.openapi.components {
            Some(c) => c,
            None => {
                return None;
            },
        };
        if let Some(v3) = &components.schemas {
            if let Some(entry) = ns_find(v3, &name_owned) {
                return entry.as_ref();
            }
        }
        if let Some(v2) = &components.definitions {
            if let Some(entry) = ns_find(v2, &name_owned) {
                return entry.as_ref();
            }
        }
        None
    }

    /// Build the IR of one raw schema node. Returns exactly what the
    /// builder's mathematical description yields: `None` on a malformed or
    /// unsupported node, the typed tree otherwise. A `$ref` node becomes a
    /// `Ref` leaf at once, so recursion never follows a reference edge.
    pub fn try_parse_schema(&self, schema: &Schema) -> (r: Option<SchemaType>)
        ensures
            st_view_opt(r) == build_spec(*schema),
        decreases *schema,
    {
        if let Some(reference) = &schema.reference {
            let name = match self.get_schema_name_by_ref(reference.as_str()) {
                Some(name) => name,
                None => {
                    return None;
                },
            };
            return Some(SchemaType::Ref(name.to_owned()));
        }
        match &schema.type_tag {
            None => None,
            Some(tag) => match tag {
                document::SchemaType::ARRAY => {
                    if let Some(items) = &schema.items {
                        proof {
                            assert(decreases_to!(*schema => schema.items));
                            assert(decreases_to!(schema.items => schema.items->0));
                        }
                        match self.try_parse_schema(&**items) {
                            Some(t) => Some(SchemaType::Array(Box::new(t))),
                            None => None,
                        }
                    } else {
                        None
                    }
                },
                document::SchemaType::OBJECT => {
                    if let Some(props) = &schema.properties {
                        let mut out: Vec<(String, SchemaType)> = Vec::new();
                        let mut i: usize = 0;
                        while i < props.len()
                            invariant
                                i <= props.len(),
                                schema.properties matches Some(p) && p == *props,
                                schema.reference is None,
                                schema.type_tag == Some(document::SchemaType::OBJECT),
                                props_build(props@.subrange(0, i as int)) == Some(
                                    fields_view(out@),
                                ),
                            decreases props.len() - i,
                        {
                            let ghost pre = props@.subrange(0, i as int);
                            let ghost ext = props@.subrange(0, i + 1);
                            proof {
                                assert(ext.subrange(0, ext.len() - 1) =~= pre);
                                assert(ext[ext.len() - 1] == props@[i as int]);
                            }
                            let pair = &props[i];
                            match &pair.1 {
                                None => {
                                    proof {
                                        assert(props_build(ext) is None);
                                        lemma_props_build_none_extends(props@, i + 1);
                                        assert(props@.subrange(0, props@.len() as int) =~= props@);
                                    }
                                    return None;
                                },
                                Some(inner) => {
                                    proof {
                                        assert(decreases_to!(*schema => schema.properties));
                                        assert(decreases_to!(
                                            schema.properties => schema.properties->0));
                                        assert(decreases_to!(schema.properties->0 => props@));
                                        assert(decreases_to!(props@ => props@[i as int]));
                                        assert(decreases_to!(
                                            props@[i as int] => props@[i as int].1));
                                        assert(decreases_to!(
                                            props@[i as int].1 => props@[i as int].1->0));
                                    }
                                    match self.try_parse_schema(inner) {
                                        None => {
                                            proof {
                                                assert(props_build(ext) is None);
                                                lemma_props_build_none_extends(props@, i + 1);
                                                assert(props@.subrange(0, props@.len() as int)
                                                    =~= props@);
                                            }
                                            return None;
                                        },
                                        Some(t) => {
                                            let ghost prev = out@;
                                            out.push((pair.0.clone(), t));
                                            proof {
                                                let o = out@;
                                                assert(o.subrange(0, o.len() - 1) =~= prev);
                                                assert(fields_view(o) == fields_view(prev).push(
                                                    (o[o.len() - 1].0@, st_view(o[o.len() - 1].1)),
                                                ));
                                                assert(o[o.len() - 1].0@ == props@[i as int].0@);
                                                assert(props_build(ext) == Some(fields_view(o)));
                                            }
                                        },
                                    }
                                },
                            }
                            i += 1;
                        }
                        proof {
                            assert(props@.subrange(0, props@.len() as int) =~= props@);
                        }
                        Some(SchemaType::Object(out))
                    } else {
                        None
                    }
                },
                document::SchemaType::STRING => Some(
                    SchemaType::Primitive(
                        Primitive {
                            kind: PrimitiveType::String,
                            enum_values: clone_enum_values(&schema.enum_variants),
                        },
                    ),
                ),
                document::SchemaType::NUMBER => Some(
                    SchemaType::Primitive(
                        Primitive {
                            kind: PrimitiveType::Number,
                            enum_values: clone_enum_values(&schema.enum_variants),
                        },
                    ),
                ),
                document::SchemaType::INTEGER => Some(
                    SchemaType::Primitive(
                        Primitive {
                            kind: PrimitiveType::Integer,
                            enum_values: clone_enum_values(&schema.enum_variants),
                        },
                    ),
                ),
                document::SchemaType::BOOLEAN => Some(
                    SchemaType::Primitive(
                        Primitive {
                            kind: PrimitiveType::Boolean,
                            enum_values: clone_enum_values(&schema.enum_variants),
                        },
                    ),
                ),
                document::SchemaType::NULL => None,
            },
        }
    }

    /// Dispatch one body container. The one eager dereference site: a body
    /// whose root schema is a `$ref` resolves the name, builds the target
    /// one level down, stores the result in the reference cache, and hands
    /// the caller a `Ref` leaf; a non-reference root is built in place.
    /// Never touches the document or the collected requests.
    pub fn try_parse_response(&mut self, response: &Option<Response>) -> (r: Option<SchemaType>)
        ensures
            st_view_opt(r) == body_build_spec(old(self).openapi.components, *response),
            final(self).openapi == old(self).openapi,
            final(self).reqs == old(self).reqs,
            refs_view(final(self).refs@) == refs_view(old(self).refs@) + body_cache_add(
                old(self).openapi.components,
                *response,
            ),
            final(self).log.indent == old(self).log.indent,
    {
        let resp = match response {
            Some(resp) => resp,
            None => {
                proof {
                    assert(refs_view(self.refs@) =~= refs_view(self.refs@) + Seq::empty());
                }
                return None;
            },
        };
        let content = match &resp.content {
            Some(content) => content,
            None => {
                proof {
                    assert(refs_view(self.refs@) =~= refs_view(self.refs@) + Seq::empty());
                }
                return None;
            },
        };
        let json = match &content.json {
            Some(json) => json,
            None => {
                proof {
                    assert(refs_view(self.refs@) =~= refs_view(self.refs@) + Seq::empty());
                }
                return None;
            },
        };
        let schema = match &json.schema {
            Some(schema) => schema,
            None => {
                proof {
                    assert(refs_view(self.refs@) =~= refs_view(self.refs@) + Seq::empty());
                }
                return None;
            },
        };
        match &schema.reference {
            Some(reference) => {
                let name = match self.get_schema_name_by_ref(reference.as_str()) {
                    Some(name) => name,
                    None => {
                        return None;
                    },
                };
                self.log.field("ref", name);
                let built = {
                    let target = match self.get_schema_by_ref(reference.as_str()) {
                        Some(target) => target,
                        None => {
                            proof {
                                assert(refs_view(self.refs@) =~= refs_view(self.refs@)
                                    + Seq::empty());
                            }
                            return None;
                        },
                    };
                    self.try_parse_schema(target)
                };
                match built {
                    None => {
                        proof {
                            assert(refs_view(self.refs@) =~= refs_view(self.refs@) + Seq::empty());
                        }
                        None
                    },
                    Some(t) => {
                        let ghost prev = self.refs@;
                        self.refs.push((name.to_owned(), t));
                        proof {
                            let o = self.refs@;
                            assert(o.subrange(0, o.len() - 1) =~= prev);
                            assert(fields_view(o) == fields_view(prev).push(
                                (o[o.len() - 1].0@, st_view(o[o.len() - 1].1)),
                            ));
                            assert(refs_view(o) =~= refs_view(prev) + body_cache_add(
                                self.openapi.components,
                                *response,
                            ));
                        }
                        Some(SchemaType::Ref(name.to_owned()))
                    },
                }
            },
            None => {
                let r = self.try_parse_schema(schema);
                proof {
                    assert(refs_view(self.refs@) =~= refs_view(self.refs@) + Seq::empty());
                }
                r
            },
        }
    }

    /// Record an IR node in the trace: a primitive under its key, an
    /// object field by field. Observability only: the document, the
    /// requests and the cache are untouched.
    pub fn log_schema_type(&mut self, key: Option<&str>, schema_type: &SchemaType) -> (r: Option<
        (),
    >)
        ensures
            final(self).openapi == old(self).openapi,
            final(self).reqs == old(self).reqs,
            final(self).refs == old(self).refs,
            final(self).log.indent == old(self).log.indent,
            (r is Some) == !(*schema_type matches SchemaType::Primitive(_) && key is None),
        decreases *schema_type,
    {
        match schema_type {
            SchemaType::Primitive(p) => {
                let v = match p.kind {
                    PrimitiveType::Integer => "integer",
                    PrimitiveType::Number => "number",
                    PrimitiveType::String => "string",
                    PrimitiveType::Boolean => "boolean",
                };
                let k = match key {
                    Some(k) => k,
                    None => {
                        return None;
                    },
                };
                self.log.field(k, v);
                Some(())
            },
            SchemaType::Object(map) => {
                let mut i: usize = 0;
                while i < map.len()
                    invariant
                        i <= map@.len(),
                        schema_type matches SchemaType::Object(m) && m == *map,
                        self.openapi == old(self).openapi,
                        self.reqs == old(self).reqs,
                        self.refs == old(self).refs,
                        self.log.indent == old(self).log.indent,
                    decreases map@.len() - i,
                {
                    let pair = &map[i];
                    proof {
                        assert(decreases_to!(*schema_type => schema_type->Object_0));
                        assert(decreases_to!(schema_type->Object_0 => map@));
                        assert(decreases_to!(map@ => map@[i as int]));
                        assert(decreases_to!(map@[i as int] => map@[i as int].1));
                    }
                    let _ = self.log_schema_type(Some(pair.0.as_str()), &pair.1);
                    i += 1;
                }
                Some(())
            },
            _ => Some(()),
        }
    }

    /// Walk an operation's response table: parse each status key as an
    /// unsigned 16-bit integer (malformed keys are skipped), dispatch each
    /// body, and keep, in declaration order, the entries whose body
    /// yielded an IR node. `None` exactly when the operation declares no
    /// table at all.
    pub fn try_parse_responses(&mut self, method: &Method) -> (r: Option<Vec<(u16, SchemaType)>>)
        ensures
            final(self).openapi == old(self).openapi,
            final(self).reqs == old(self).reqs,
            final(self).log.indent == old(self).log.indent,
            refs_view(final(self).refs@) == refs_view(old(self).refs@) + responses_cache_spec(
                old(self).openapi.components,
                *method,
            ),
            match r {
                None => responses_spec(old(self).openapi.components, *method) is None,
                Some(v) => responses_spec(old(self).openapi.components, *method) == Some(
                    responses_view(v@),
                ),
            },
    {
        let entries = match &method.responses {
            Some(entries) => entries,
            None => {
                proof {
                    assert(refs_view(self.refs@) =~= refs_view(self.refs@) + Seq::empty());
                }
                return None;
            },
        };
        let ghost c = self.openapi.components;
        let ghost refs0 = refs_view(self.refs@);
        let mut out: Vec<(u16, SchemaType)> = Vec::new();
        let mut i: usize = 0;
        while i < entries.len()
            invariant
                i <= entries@.len(),
                method.responses matches Some(es) && es == *entries,
                self.openapi == old(self).openapi,
                self.reqs == old(self).reqs,
                self.log.indent == old(self).log.indent,
                c == self.openapi.components,
                refs0 == refs_view(old(self).refs@),
                responses_build(c, entries@.subrange(0, i as int)) == responses_view(out@),
                refs_view(self.refs@) == refs0 + responses_cache_add(
                    c,
                    entries@.subrange(0, i as int),
                ),
            decreases entries@.len() - i,
        {
            let ghost pre = entries@.subrange(0, i as int);
            let ghost ext = entries@.subrange(0, i + 1);
            proof {
                assert(ext.subrange(0, ext.len() - 1) =~= pre);
                assert(ext[ext.len() - 1] == entries@[i as int]);
            }
            let pair = &entries[i];
            match parse_u16(pair.0.as_str()) {
                None => {
                    proof {
                        assert(responses_build(c, ext) == responses_build(c, pre));
                        assert(responses_cache_add(c, ext) == responses_cache_add(c, pre));
                    }
                },
                Some(code) => {
                    self.log.status(code);
                    let ghost refs_before = refs_view(self.refs@);
                    let st = self.try_parse_response(&pair.1);
                    proof {
                        assert(refs_view(self.refs@) == refs_before + body_cache_add(
                            c,
                            entries@[i as int].1,
                        ));
                        assert(responses_cache_add(c, ext) == responses_cache_add(c, pre)
                            + body_cache_add(c, entries@[i as int].1));
                        assert((refs0 + responses_cache_add(c, pre)) + body_cache_add(
                            c,
                            entries@[i as int].1,
                        ) =~= refs0 + responses_cache_add(c, ext));
                    }
                    match st {
                        None => (),
                        Some(t) => {
                            let _ = self.log_schema_type(None, &t);
                            let ghost prev = out@;
                            out.push((code, t));
                            proof {
                                assert(out@.drop_last() =~= prev);
                                assert(responses_view(out@) =~= responses_view(prev).push(
                                    (code, st_view(t)),
                                ));
                                assert(responses_build(c, ext) == responses_view(out@));
                            }
                        },
                    }
                },
            }
            i += 1;
        }
        proof {
            assert(entries@.subrange(0, entries@.len() as int) =~= entries@);
        }
        Some(out)
    }

    /// Walk an operation's parameter list: every parameter that carries a
    /// name and a schema that builds contributes a name/IR pair, in
    /// declaration order; incomplete or unbuildable parameters are skipped
    /// without failing the operation. `None` exactly when the operation
    /// declares no parameters at all.
    pub fn try_parse_parameters(&mut self, method: &Method) -> (r: Option<
        Vec<(String, SchemaType)>,
    >)
        ensures
            final(self).openapi == old(self).openapi,
            final(self).reqs == old(self).reqs,
            final(self).refs == old(self).refs,
            final(self).log.indent == old(self).log.indent,
            match r {
                None => params_spec(*method) is None,
                Some(v) => params_spec(*method) == Some(named_list_view(v@)),
            },
    {
        let ps = match &method.parameters {
            Some(ps) => ps,
            None => {
                return None;
            },
        };
        let mut out: Vec<(String, SchemaType)> = Vec::new();
        let mut i: usize = 0;
        while i < ps.len()
            invariant
                i <= ps@.len(),
                method.parameters matches Some(v) && v == *ps,
                self.openapi == old(self).openapi,
                self.reqs == old(self).reqs,
                self.refs == old(self).refs,
                self.log.indent == old(self).log.indent,
                params_build(ps@.subrange(0, i as int)) == named_list_view(out@),
            decreases ps@.len() - i,
        {
            let ghost pre = ps@.subrange(0, i as int);
            let ghost ext = ps@.subrange(0, i + 1);
            proof {
                assert(ext.subrange(0, ext.len() - 1) =~= pre);
                assert(ext[ext.len() - 1] == ps@[i as int]);
            }
            let param = &ps[i];
            if let Some(schema) = &param.schema {
                match self.try_parse_schema(schema) {
                    None => (),
                    Some(t) => {
                        if let Some(name) = &param.name {
                            let _ = self.log_schema_type(Some(name.as_str()), &t);
                            let ghost prev = out@;
                            out.push((name.clone(), t));
                            proof {
                                let o = out@;
                                assert(o.subrange(0, o.len() - 1) =~= prev);
                                assert(fields_view(o) == fields_view(prev).push(
                                    (o[o.len() - 1].0@, st_view(o[o.len() - 1].1)),
                                ));
                                assert(o[o.len() - 1].0@ == ps@[i as int].name->0@);
                                assert(params_build(ext) == named_list_view(o));
                            }
                        }
                    },
                }
            }
            i += 1;
        }
        proof {
            assert(ps@.subrange(0, ps@.len() as int) =~= ps@);
        }
        Some(out)
    }

    /// Walk one path's method table: parse each method name
    /// case-insensitively (unknown names fail only that entry), build the
    /// operation's parameters, body and responses, and append one request
    /// per recognized method, in declaration order.
    pub fn try_parse_methods(
        &mut self,
        pathname: &str,
        methods: &Option<Vec<(String, Method)>>,
    ) -> (r: Option<()>)
        requires
            old(self).log.indent <= usize::MAX - 2,
        ensures
            final(self).openapi == old(self).openapi,
            final(self).log.indent == old(self).log.indent,
            reqs_view(final(self).reqs@) == reqs_view(old(self).reqs@) + methods_requests_opt(
                old(self).openapi.components,
                pathname@,
                *methods,
            ),
            refs_view(final(self).refs@) == refs_view(old(self).refs@) + methods_cache_opt(
                old(self).openapi.components,
                *methods,
            ),
            r == Some(()),
    {
        let ms = match methods {
            Some(ms) => ms,
            None => {
                proof {
                    assert(reqs_view(self.reqs@) =~= reqs_view(self.reqs@) + Seq::empty());
                    assert(refs_view(self.refs@) =~= refs_view(self.refs@) + Seq::empty());
                }
                return Some(());
            },
        };
        let ghost c = self.openapi.components;
        let mut i: usize = 0;
        while i < ms.len()
            invariant
                i <= ms@.len(),
                (*methods) matches Some(v) && v == *ms,
                self.openapi == old(self).openapi,
                self.log.indent == old(self).log.indent,
                old(self).log.indent <= usize::MAX - 2,
                c == self.openapi.components,
                reqs_view(self.reqs@) == reqs_view(old(self).reqs@) + methods_requests(
                    c,
                    pathname@,
                    ms@.subrange(0, i as int),
                ),
                refs_view(self.refs@) == refs_view(old(self).refs@) + methods_cache(
                    c,
                    ms@.subrange(0, i as int),
                ),
            decreases ms@.len() - i,
        {
            let ghost pre = ms@.subrange(0, i as int);
            let ghost ext = ms@.subrange(0, i + 1);
            proof {
                assert(ext.subrange(0, ext.len() - 1) =~= pre);
                assert(ext[ext.len() - 1] == ms@[i as int]);
            }
            let pair = &ms[i];
            match MethodVariant::parse(pair.0.as_str()) {
                None => {
                    proof {
                        assert(methods_requests(c, pathname@, ext) == methods_requests(
                            c,
                            pathname@,
                            pre,
                        ));
                        assert(methods_cache(c, ext) == methods_cache(c, pre));
                    }
                },
                Some(variant) => {
                    let mstr = variant.as_str();
                    self.log.method(mstr);
                    self.log.increase_indent();
                    self.log.params();
                    self.log.increase_indent();
                    let params = self.try_parse_parameters(&pair.1);
                    self.log.decrease_indent();
                    self.log.body();
                    self.log.increase_indent();
                    let ghost refs_a = refs_view(self.refs@);
                    let body = self.try_parse_response(&pair.1.request_body);
                    if let Some(b) = &body {
                        let _ = self.log_schema_type(None, b);
                    }
                    self.log.decrease_indent();
                    self.log.responses();
                    self.log.increase_indent();
                    let responses = self.try_parse_responses(&pair.1);
                    self.log.decrease_indent();
                    self.log.decrease_indent();
                    proof {
                        assert(refs_view(self.refs@) == (refs_view(old(self).refs@)
                            + methods_cache(c, pre)) + (body_cache_add(c, ms@[i as int].1.request_body)
                            + responses_cache_spec(c, ms@[i as int].1)));
                        assert((refs_view(old(self).refs@) + methods_cache(c, pre)) + (
                        body_cache_add(c, ms@[i as int].1.request_body) + responses_cache_spec(
                            c,
                            ms@[i as int].1,
                        )) =~= refs_view(old(self).refs@) + methods_cache(c, ext));
                    }
                    let req = Request {
                        path: pathname.to_owned(),
                        method: mstr.to_owned(),
                        params: params,
                        body: body,
                        responses: responses,
                    };
                    proof {
                        assert(req@ == request_spec(c, pathname@, ms@[i as int].0@, ms@[
                        i as int].1)->0);
                    }
                    let ghost prev = self.reqs@;
                    self.reqs.push(req);
                    proof {
                        assert(reqs_view(self.reqs@) =~= reqs_view(prev).push(
                            self.reqs@[self.reqs@.len() - 1]@,
                        ));
                        assert(reqs_view(self.reqs@) =~= reqs_view(old(self).reqs@)
                            + methods_requests(c, pathname@, ext));
                    }
                },
            }
            i += 1;
        }
        proof {
            assert(ms@.subrange(0, ms@.len() as int) =~= ms@);
        }
        Some(())
    }

    /// A fresh engine over one document: no requests collected, an empty
    /// reference cache, a fresh trace.
    pub fn new(openapi: OpenAPI) -> (r: Parser)
        ensures
            r.openapi == openapi,
            r.reqs@.len() == 0,
            r.refs@.len() == 0,
            r.log.indent == 0,
            r.log.entries@.len() == 0,
    {
        let log = Logger::new();
        Parser { openapi, log, reqs: Vec::new(), refs: Vec::new() }
    }

    /// Collect the whole document: one request per declared path and
    /// recognized method, in declaration order, and the reference cache
    /// the traversal populates. The path table is consumed; the schema
    /// namespaces stay for later lookups against the cache.
    pub fn parse(&mut self)
        requires
            old(self).log.indent <= usize::MAX - 3,
        ensures
            final(self).openapi.paths is None,
            final(self).openapi.components == old(self).openapi.components,
            final(self).log.indent == old(self).log.indent,
            reqs_view(final(self).reqs@) == reqs_view(old(self).reqs@) + collect_spec(
                old(self).openapi,
            ),
            refs_view(final(self).refs@) == refs_view(old(self).refs@) + collect_cache_spec(
                old(self).openapi,
            ),
    {
        let paths = self.openapi.paths.take();
        match paths {
            None => {
                proof {
                    assert(reqs_view(self.reqs@) =~= reqs_view(self.reqs@) + Seq::empty());
                    assert(refs_view(self.refs@) =~= refs_view(self.refs@) + Seq::empty());
                }
            },
            Some(pv) => {
                let ghost c = self.openapi.components;
                let mut i: usize = 0;
                while i < pv.len()
                    invariant
                        i <= pv@.len(),
                        self.openapi.paths is None,
                        self.openapi.components == old(self).openapi.components,
                        self.log.indent == old(self).log.indent,
                        old(self).log.indent <= usize::MAX - 3,
                        c == old(self).openapi.components,
                        reqs_view(self.reqs@) == reqs_view(old(self).reqs@) + paths_requests(
                            c,
                            pv@.subrange(0, i as int),
                        ),
                        refs_view(self.refs@) == refs_view(old(self).refs@) + paths_cache(
                            c,
                            pv@.subrange(0, i as int),
                        ),
                    decreases pv@.len() - i,
                {
                    let ghost pre = pv@.subrange(0, i as int);
                    let ghost ext = pv@.subrange(0, i + 1);
                    proof {
                        assert(ext.subrange(0, ext.len() - 1) =~= pre);
                        assert(ext[ext.len() - 1] == pv@[i as int]);
                    }
                    let entry = &pv[i];
                    self.log.path(entry.0.as_str());
                    self.log.increase_indent();
                    let _ = self.try_parse_methods(entry.0.as_str(), &entry.1);
                    self.log.decrease_indent();
                    proof {
                        assert((reqs_view(old(self).reqs@) + paths_requests(c, pre))
                            + methods_requests_opt(c, pv@[i as int].0@, pv@[i as int].1)
                            =~= reqs_view(old(self).reqs@) + paths_requests(c, ext));
                        assert((refs_view(old(self).refs@) + paths_cache(c, pre))
                            + methods_cache_opt(c, pv@[i as int].1) =~= refs_view(
                            old(self).refs@,
                        ) + paths_cache(c, ext));
                    }
                    i += 1;
                }
                proof {
                    assert(pv@.subrange(0, pv@.len() as int) =~= pv@);
                }
            },
        }
    }
}

} // verus!
