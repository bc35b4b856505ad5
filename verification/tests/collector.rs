use openapi_ir::document::{
    Components, Content, Method, MethodParams, OpenAPI, Response, ResponseContent, Schema,
};
use openapi_ir::logger::{LogEvent, Logger};
use openapi_ir::parser::{Parser, PrimitiveType, SchemaType};

fn bare_schema() -> Schema {
    Schema { reference: None, type_tag: None, properties: None, items: None, enum_variants: None }
}

fn tagged(tag: openapi_ir::document::SchemaType) -> Schema {
    let mut s = bare_schema();
    s.type_tag = Some(tag);
    s
}

fn ref_schema(target: &str) -> Schema {
    let mut s = bare_schema();
    s.reference = Some(target.to_string());
    s
}

fn json_body(schema: Schema) -> Response {
    Response {
        content: Some(ResponseContent {
            json: Some(Content { schema: Some(schema) }),
            form_data: None,
        }),
    }
}

fn bare_method() -> Method {
    Method { operations_id: None, parameters: None, request_body: None, responses: None }
}

fn expect_prim(t: &SchemaType, kind: PrimitiveType) {
    match t {
        SchemaType::Primitive(p) => assert_eq!(p.kind, kind),
        _ => panic!("not a primitive"),
    }
}

#[test]
fn v3_namespace_takes_precedence() {
    // The same name in both namespaces, with different shapes: v3 wins.
    let doc = OpenAPI {
        paths: None,
        components: Some(Components {
            schemas: Some(vec![(
                "Pet".to_string(),
                Some(tagged(openapi_ir::document::SchemaType::STRING)),
            )]),
            definitions: Some(vec![(
                "Pet".to_string(),
                Some(tagged(openapi_ir::document::SchemaType::INTEGER)),
            )]),
        }),
    };
    let p = Parser::new(doc);
    let found = p.get_schema_by_ref("#/components/schemas/Pet").unwrap();
    assert_eq!(found.type_tag, Some(openapi_ir::document::SchemaType::STRING));
}

#[test]
fn v2_namespace_is_the_fallback() {
    let doc = OpenAPI {
        paths: None,
        components: Some(Components {
            schemas: Some(vec![]),
            definitions: Some(vec![(
                "Order".to_string(),
                Some(tagged(openapi_ir::document::SchemaType::BOOLEAN)),
            )]),
        }),
    };
    let p = Parser::new(doc);
    let found = p.get_schema_by_ref("#/definitions/Order").unwrap();
    assert_eq!(found.type_tag, Some(openapi_ir::document::SchemaType::BOOLEAN));
}

#[test]
fn unknown_name_fails_resolution() {
    let doc = OpenAPI {
        paths: None,
        components: Some(Components { schemas: Some(vec![]), definitions: Some(vec![]) }),
    };
    let p = Parser::new(doc);
    assert!(p.get_schema_by_ref("#/components/schemas/Ghost").is_none());
    let q = Parser::new(OpenAPI { paths: None, components: None });
    assert!(q.get_schema_by_ref("#/components/schemas/Ghost").is_none());
}

#[test]
fn null_v3_entry_blocks_the_v2_fallback() {
    // The v3 namespace carries the name with no schema: the entry decides,
    // and resolution fails without consulting v2.
    let doc = OpenAPI {
        paths: None,
        components: Some(Components {
            schemas: Some(vec![("Pet".to_string(), None)]),
            definitions: Some(vec![(
                "Pet".to_string(),
                Some(tagged(openapi_ir::document::SchemaType::STRING)),
            )]),
        }),
    };
    let p = Parser::new(doc);
    assert!(p.get_schema_by_ref("#/components/schemas/Pet").is_none());
}

#[test]
fn reference_to_reference_caches_one_level() {
    // A body `$ref` to Alias, where Alias is itself a `$ref` to Base:
    // the cache receives Alias as Ref("Base"), and the body is Ref("Alias").
    let doc = OpenAPI {
        paths: None,
        components: Some(Components {
            schemas: Some(vec![
                ("Alias".to_string(), Some(ref_schema("#/components/schemas/Base"))),
                ("Base".to_string(), Some(tagged(openapi_ir::document::SchemaType::STRING))),
            ]),
            definitions: None,
        }),
    };
    let mut p = Parser::new(doc);
    let body = p
        .try_parse_response(&Some(json_body(ref_schema("#/components/schemas/Alias"))))
        .unwrap();
    match body {
        SchemaType::Ref(name) => assert_eq!(name, "Alias"),
        _ => panic!("body is not a ref"),
    }
    assert_eq!(p.refs.len(), 1);
    assert_eq!(p.refs[0].0, "Alias");
    match &p.refs[0].1 {
        SchemaType::Ref(name) => assert_eq!(name, "Base"),
        _ => panic!("cache entry is not a ref"),
    }
}

#[test]
fn direct_object_body_stays_out_of_the_cache() {
    let mut obj = tagged(openapi_ir::document::SchemaType::OBJECT);
    obj.properties = Some(vec![(
        "name".to_string(),
        Some(tagged(openapi_ir::document::SchemaType::STRING)),
    )]);
    let doc = OpenAPI {
        paths: Some(vec![(
            "/pets".to_string(),
            Some(vec![("put".to_string(), {
                let mut m = bare_method();
                m.request_body = Some(json_body(obj));
                m
            })]),
        )]),
        components: None,
    };
    let mut p = Parser::new(doc);
    p.parse();
    assert_eq!(p.reqs.len(), 1);
    match p.reqs[0].body.as_ref().unwrap() {
        SchemaType::Object(fields) => {
            assert_eq!(fields.len(), 1);
            assert_eq!(fields[0].0, "name");
        }
        _ => panic!("body is not an object"),
    }
    assert_eq!(p.refs.len(), 0);
}

#[test]
fn absent_sections_stay_absent() {
    // No parameters and no responses declared: the request records
    // nothing for them, rather than empty tables.
    let doc = OpenAPI {
        paths: Some(vec![("/ping".to_string(), Some(vec![("get".to_string(), bare_method())]))]),
        components: None,
    };
    let mut p = Parser::new(doc);
    p.parse();
    assert_eq!(p.reqs.len(), 1);
    assert!(p.reqs[0].params.is_none());
    assert!(p.reqs[0].body.is_none());
    assert!(p.reqs[0].responses.is_none());
    // Declared but empty tables stay, empty.
    let mut m = bare_method();
    m.parameters = Some(vec![]);
    m.responses = Some(vec![]);
    let doc2 = OpenAPI {
        paths: Some(vec![("/ping".to_string(), Some(vec![("get".to_string(), m)]))]),
        components: None,
    };
    let mut q = Parser::new(doc2);
    q.parse();
    assert_eq!(q.reqs.len(), 1);
    assert_eq!(q.reqs[0].params.as_ref().unwrap().len(), 0);
    assert_eq!(q.reqs[0].responses.as_ref().unwrap().len(), 0);
}

#[test]
fn failed_response_bodies_are_omitted_not_null() {
    // A 200 whose body fails to build and a 404 that builds: only the 404
    // lands in the table.
    let mut m = bare_method();
    m.responses = Some(vec![
        ("200".to_string(), Some(json_body(tagged(openapi_ir::document::SchemaType::NULL)))),
        ("204".to_string(), None),
        ("404".to_string(), Some(json_body(tagged(openapi_ir::document::SchemaType::BOOLEAN)))),
    ]);
    let mut p = Parser::new(OpenAPI { paths: None, components: None });
    let table = p.try_parse_responses(&m).unwrap();
    assert_eq!(table.len(), 1);
    assert_eq!(table[0].0, 404);
    expect_prim(&table[0].1, PrimitiveType::Boolean);
}

#[test]
fn status_keys_filter_the_response_table() {
    // Keys "200", "404" and "default": only the numeric two stay.
    let mut m = bare_method();
    m.responses = Some(vec![
        ("200".to_string(), Some(json_body(tagged(openapi_ir::document::SchemaType::STRING)))),
        ("404".to_string(), Some(json_body(tagged(openapi_ir::document::SchemaType::STRING)))),
        ("default".to_string(), Some(json_body(tagged(openapi_ir::document::SchemaType::STRING)))),
    ]);
    let mut p = Parser::new(OpenAPI { paths: None, components: None });
    let table = p.try_parse_responses(&m).unwrap();
    assert_eq!(table.len(), 2);
    assert_eq!(table[0].0, 200);
    assert_eq!(table[1].0, 404);
}

#[test]
fn cache_holds_the_dereferenced_target() {
    // A response body `$ref` to Pet, where Pet's `friend` field refers
    // back to Pet: the cache receives Pet as an object whose `friend` is
    // an unresolved Ref leaf, and the body itself is Ref("Pet").
    let mut pet = tagged(openapi_ir::document::SchemaType::OBJECT);
    pet.properties = Some(vec![(
        "friend".to_string(),
        Some(ref_schema("#/components/schemas/Pet")),
    )]);
    let doc = OpenAPI {
        paths: None,
        components: Some(Components {
            schemas: Some(vec![("Pet".to_string(), Some(pet))]),
            definitions: None,
        }),
    };
    let mut p = Parser::new(doc);
    let body = p
        .try_parse_response(&Some(json_body(ref_schema("#/components/schemas/Pet"))))
        .unwrap();
    match body {
        SchemaType::Ref(name) => assert_eq!(name, "Pet"),
        _ => panic!("body is not a ref"),
    }
    assert_eq!(p.refs.len(), 1);
    assert_eq!(p.refs[0].0, "Pet");
    match &p.refs[0].1 {
        SchemaType::Object(fields) => {
            assert_eq!(fields.len(), 1);
            assert_eq!(fields[0].0, "friend");
            match &fields[0].1 {
                SchemaType::Ref(name) => assert_eq!(name, "Pet"),
                _ => panic!("friend is not a ref"),
            }
        }
        _ => panic!("cache entry is not an object"),
    }
}

#[test]
fn nested_references_do_not_populate_the_cache() {
    // A non-reference body whose property is a `$ref`: the Ref leaf lands
    // in the IR, but nothing is cached for it.
    let mut obj = tagged(openapi_ir::document::SchemaType::OBJECT);
    obj.properties = Some(vec![(
        "pet".to_string(),
        Some(ref_schema("#/components/schemas/Pet")),
    )]);
    let mut p = Parser::new(OpenAPI { paths: None, components: None });
    let body = p.try_parse_response(&Some(json_body(obj))).unwrap();
    match body {
        SchemaType::Object(fields) => match &fields[0].1 {
            SchemaType::Ref(name) => assert_eq!(name, "Pet"),
            _ => panic!("pet is not a ref"),
        },
        _ => panic!("body is not an object"),
    }
    assert_eq!(p.refs.len(), 0);
}

#[test]
fn unresolved_reference_body_yields_nothing() {
    let mut p = Parser::new(OpenAPI { paths: None, components: None });
    let body = p.try_parse_response(&Some(json_body(ref_schema("#/components/schemas/Ghost"))));
    assert!(body.is_none());
    assert_eq!(p.refs.len(), 0);
}

#[test]
fn parameters_skip_the_incomplete_ones() {
    let mut m = bare_method();
    m.parameters = Some(vec![
        MethodParams {
            name: Some("id".to_string()),
            description: None,
            required: Some(true),
            schema: Some(tagged(openapi_ir::document::SchemaType::INTEGER)),
        },
        MethodParams {
            name: None,
            description: None,
            required: None,
            schema: Some(tagged(openapi_ir::document::SchemaType::STRING)),
        },
        MethodParams {
            name: Some("verbose".to_string()),
            description: None,
            required: None,
            schema: None,
        },
        MethodParams {
            name: Some("broken".to_string()),
            description: None,
            required: None,
            schema: Some(tagged(openapi_ir::document::SchemaType::NULL)),
        },
    ]);
    let mut p = Parser::new(OpenAPI { paths: None, components: None });
    let params = p.try_parse_parameters(&m).unwrap();
    assert_eq!(params.len(), 1);
    assert_eq!(params[0].0, "id");
    expect_prim(&params[0].1, PrimitiveType::Integer);
}

#[test]
fn end_to_end_single_operation() {
    // One path, one GET, one integer parameter, a 200 object response.
    let mut name_obj = tagged(openapi_ir::document::SchemaType::OBJECT);
    name_obj.properties = Some(vec![(
        "name".to_string(),
        Some(tagged(openapi_ir::document::SchemaType::STRING)),
    )]);
    let mut m = bare_method();
    m.parameters = Some(vec![MethodParams {
        name: Some("id".to_string()),
        description: None,
        required: Some(true),
        schema: Some(tagged(openapi_ir::document::SchemaType::INTEGER)),
    }]);
    m.responses = Some(vec![("200".to_string(), Some(json_body(name_obj)))]);
    let doc = OpenAPI {
        paths: Some(vec![(
            "/pets/{id}".to_string(),
            Some(vec![("GET".to_string(), m)]),
        )]),
        components: None,
    };
    let mut p = Parser::new(doc);
    p.parse();
    assert_eq!(p.reqs.len(), 1);
    let req = &p.reqs[0];
    assert_eq!(req.path, "/pets/{id}");
    assert_eq!(req.method, "get");
    let params = req.params.as_ref().unwrap();
    assert_eq!(params.len(), 1);
    assert_eq!(params[0].0, "id");
    expect_prim(&params[0].1, PrimitiveType::Integer);
    assert!(req.body.is_none());
    let responses = req.responses.as_ref().unwrap();
    assert_eq!(responses.len(), 1);
    assert_eq!(responses[0].0, 200);
    match &responses[0].1 {
        SchemaType::Object(fields) => {
            assert_eq!(fields.len(), 1);
            assert_eq!(fields[0].0, "name");
            expect_prim(&fields[0].1, PrimitiveType::String);
        }
        _ => panic!("response is not an object"),
    }
    assert_eq!(p.refs.len(), 0);
}

#[test]
fn unknown_method_fails_only_its_entry() {
    let doc = OpenAPI {
        paths: Some(vec![(
            "/pets".to_string(),
            Some(vec![
                ("fetch".to_string(), bare_method()),
                ("delete".to_string(), bare_method()),
            ]),
        )]),
        components: None,
    };
    let mut p = Parser::new(doc);
    p.parse();
    assert_eq!(p.reqs.len(), 1);
    assert_eq!(p.reqs[0].method, "delete");
    assert!(p.reqs[0].params.is_none());
    assert!(p.reqs[0].body.is_none());
    assert!(p.reqs[0].responses.is_none());
}

#[test]
fn document_without_paths_collects_nothing() {
    let mut p = Parser::new(OpenAPI { paths: None, components: None });
    p.parse();
    assert_eq!(p.reqs.len(), 0);
    assert_eq!(p.refs.len(), 0);
}

#[test]
fn request_body_populates_the_cache_too() {
    let doc = OpenAPI {
        paths: Some(vec![(
            "/pets".to_string(),
            Some(vec![("post".to_string(), {
                let mut m = bare_method();
                m.request_body = Some(json_body(ref_schema("#/components/schemas/NewPet")));
                m
            })]),
        )]),
        components: Some(Components {
            schemas: Some(vec![(
                "NewPet".to_string(),
                Some(tagged(openapi_ir::document::SchemaType::STRING)),
            )]),
            definitions: None,
        }),
    };
    let mut p = Parser::new(doc);
    p.parse();
    assert_eq!(p.reqs.len(), 1);
    match p.reqs[0].body.as_ref().unwrap() {
        SchemaType::Ref(name) => assert_eq!(name, "NewPet"),
        _ => panic!("body is not a ref"),
    }
    assert_eq!(p.refs.len(), 1);
    assert_eq!(p.refs[0].0, "NewPet");
    expect_prim(&p.refs[0].1, PrimitiveType::String);
}

#[test]
fn logger_tracks_indent_and_events() {
    let mut log = Logger::new();
    assert_eq!(log.indent, 0);
    log.path("/pets");
    log.increase_indent();
    log.method("get");
    log.status(200);
    log.field("name", "string");
    log.decrease_indent();
    assert_eq!(log.indent, 0);
    assert_eq!(log.entries.len(), 4);
    assert_eq!(log.entries[0].indent, 0);
    match &log.entries[0].event {
        LogEvent::Path(p) => assert_eq!(p, "/pets"),
        _ => panic!("first entry is not a path"),
    }
    assert_eq!(log.entries[1].indent, 1);
    match &log.entries[1].event {
        LogEvent::Method(m) => assert_eq!(m, "get"),
        _ => panic!("second entry is not a method"),
    }
    match &log.entries[2].event {
        LogEvent::Status(c) => assert_eq!(*c, 200),
        _ => panic!("third entry is not a status"),
    }
    match &log.entries[3].event {
        LogEvent::Field(n, t) => {
            assert_eq!(n, "name");
            assert_eq!(t, "string");
        }
        _ => panic!("fourth entry is not a field"),
    }
}

#[test]
fn trace_never_changes_the_result() {
    // Two traversals of the same document, one with extra prior trace
    // state, produce the same requests.
    let build_doc = || OpenAPI {
        paths: Some(vec![(
            "/pets".to_string(),
            Some(vec![("get".to_string(), {
                let mut m = bare_method();
                m.responses = Some(vec![(
                    "200".to_string(),
                    Some(json_body(tagged(openapi_ir::document::SchemaType::STRING))),
                )]);
                m
            })]),
        )]),
        components: None,
    };
    let mut a = Parser::new(build_doc());
    a.parse();
    let mut b = Parser::new(build_doc());
    b.log.path("noise");
    b.parse();
    assert_eq!(a.reqs.len(), b.reqs.len());
    assert_eq!(a.reqs[0].path, b.reqs[0].path);
    assert_eq!(a.reqs[0].method, b.reqs[0].method);
}
