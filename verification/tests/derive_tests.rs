use sanelens::derive::{derive_compose, DeriveConfig, RunLabels};
use sanelens::yaml::{map_get_ref, map_get_str, Yaml};

fn str_val(s: &str) -> Yaml {
    Yaml::Str(s.to_string())
}

fn entry(k: &str, v: Yaml) -> (Yaml, Yaml) {
    (str_val(k), v)
}

fn single_service_doc(name: &str, ports: Vec<&str>) -> Yaml {
    let port_entries: Vec<Yaml> = ports.into_iter().map(str_val).collect();
    let service = Yaml::Mapping(vec![
        entry("image", str_val("example/app:latest")),
        entry("ports", Yaml::Sequence(port_entries)),
    ]);
    Yaml::Mapping(vec![entry(
        "services",
        Yaml::Mapping(vec![entry(name, service)]),
    )])
}

fn config(traffic: bool, egress: bool) -> DeriveConfig {
    DeriveConfig {
        run_id: "run_0a1b2c".to_string(),
        run_started_at: "2026-01-08T00:00:00Z".to_string(),
        envoy_image: "envoyproxy/envoy:v1.30-latest".to_string(),
        enable_traffic: traffic,
        enable_egress: egress,
        compose_cmd: vec!["podman".to_string(), "compose".to_string()],
        compose_args: Vec::new(),
        compose_file_from_args: false,
        disable_pods: true,
    }
}

fn services_of(doc: &Vec<(Yaml, Yaml)>) -> &Vec<(Yaml, Yaml)> {
    match map_get_ref(doc, "services") {
        Some(Yaml::Mapping(m)) => m,
        _ => panic!("derived document lost its services"),
    }
}

fn labels_of(svc: &Vec<(Yaml, Yaml)>) -> Vec<String> {
    match map_get_ref(svc, "labels") {
        Some(Yaml::Sequence(l)) => l
            .iter()
            .map(|e| match e {
                Yaml::Str(s) => s.clone(),
                _ => String::new(),
            })
            .collect(),
        _ => panic!("service without label list"),
    }
}

#[test]
fn http_service_splits_into_proxy_and_app() {
    let doc = single_service_doc("api", vec!["8080:3000"]);
    let d = derive_compose(
        doc,
        "/work/compose.yaml",
        "/work",
        "sanelens_run_0a1b2c",
        None,
        &config(true, false),
    )
    .expect("derivation");
    let svcs = services_of(&d.doc);
    let proxy = match map_get_ref(svcs, "api") {
        Some(Yaml::Mapping(m)) => m,
        _ => panic!("proxy service missing"),
    };
    let app = match map_get_ref(svcs, "api-app") {
        Some(Yaml::Mapping(m)) => m,
        _ => panic!("app variant missing"),
    };
    // the proxy owns the original publications
    match map_get_ref(proxy, "ports") {
        Some(Yaml::Sequence(l)) => {
            assert_eq!(l.len(), 1);
            match &l[0] {
                Yaml::Str(s) => assert_eq!(s, "8080:3000"),
                _ => panic!("port entry changed shape"),
            }
        }
        _ => panic!("proxy without ports"),
    }
    assert!(map_get_ref(app, "ports").is_none());
    // the app variant exposes the container port for the proxy
    match map_get_ref(app, "expose") {
        Some(Yaml::Sequence(l)) => match &l[0] {
            Yaml::Str(s) => assert_eq!(s, "3000"),
            _ => panic!("expose entry changed shape"),
        },
        _ => panic!("app without expose"),
    }
    // run id labels on both
    assert!(labels_of(proxy).contains(&"sanelens.run.id=run_0a1b2c".to_string()));
    assert!(labels_of(app).contains(&"sanelens.run.id=run_0a1b2c".to_string()));
    assert!(labels_of(proxy).contains(&"sanelens.proxy=true".to_string()));
    // one sidecar configuration with an HTTP listener routing to the app
    assert_eq!(d.envoy_configs.len(), 1);
    let (svc_name, body) = &d.envoy_configs[0];
    assert_eq!(svc_name, "api");
    assert!(body.contains("api_listener_3000"));
    assert!(body.contains("cluster: api-app_3000"));
    assert!(body.contains("http_connection_manager"));
    assert_eq!(d.info.proxy_services, vec!["api".to_string()]);
    assert_eq!(
        d.info.app_service_map,
        vec![("api".to_string(), "api-app".to_string())]
    );
    assert_eq!(d.info.egress_proxy, None);
    assert_eq!(d.info.run_dir, "/work/.sanelens/sanelens_run_0a1b2c");
    assert_eq!(
        d.info.path,
        "/work/.sanelens/sanelens_run_0a1b2c/compose.derived.yaml"
    );
}

#[test]
fn tcp_service_gets_tcp_listener() {
    let doc = single_service_doc("db", vec!["5432:5432"]);
    let d = derive_compose(
        doc,
        "/work/compose.yaml",
        "/work",
        "sanelens_run_0a1b2c",
        None,
        &config(true, false),
    )
    .expect("derivation");
    let (_, body) = &d.envoy_configs[0];
    assert!(body.contains("db_tcp_listener_5432"));
    assert!(body.contains("tcp_proxy"));
    assert!(!body.contains("http_connection_manager"));
}

#[test]
fn service_without_ports_stays_single() {
    let service = Yaml::Mapping(vec![entry("image", str_val("example/worker"))]);
    let doc = Yaml::Mapping(vec![entry(
        "services",
        Yaml::Mapping(vec![entry("worker", service)]),
    )]);
    let d = derive_compose(
        doc,
        "/work/compose.yaml",
        "/work",
        "sanelens_run_0a1b2c",
        None,
        &config(true, false),
    )
    .expect("derivation");
    let svcs = services_of(&d.doc);
    assert!(map_get_ref(svcs, "worker").is_some());
    assert!(map_get_ref(svcs, "worker-app").is_none());
    assert!(d.envoy_configs.is_empty());
}

#[test]
fn egress_adds_single_egress_proxy() {
    let doc = single_service_doc("api", vec!["8080:3000"]);
    let d = derive_compose(
        doc,
        "/work/compose.yaml",
        "/work",
        "sanelens_run_0a1b2c",
        None,
        &config(true, true),
    )
    .expect("derivation");
    assert_eq!(
        d.info.egress_proxy,
        Some("sanelens-egress-proxy".to_string())
    );
    let svcs = services_of(&d.doc);
    let egress = match map_get_ref(svcs, "sanelens-egress-proxy") {
        Some(Yaml::Mapping(m)) => m,
        _ => panic!("egress proxy missing"),
    };
    assert!(labels_of(egress).contains(&"sanelens.proxy.egress=true".to_string()));
    // the app variant routes outbound traffic through the egress proxy
    let app = match map_get_ref(svcs, "api-app") {
        Some(Yaml::Mapping(m)) => m,
        _ => panic!("app variant missing"),
    };
    match map_get_ref(app, "environment") {
        Some(Yaml::Mapping(env)) => {
            assert!(map_get_str(env, "HTTP_PROXY").is_some());
            assert!(map_get_str(env, "NO_PROXY").is_some());
        }
        Some(Yaml::Sequence(_)) => {}
        _ => panic!("app without egress environment"),
    }
}

#[test]
fn healthy_dependency_moves_to_app_variant() {
    let dep = Yaml::Mapping(vec![entry("condition", str_val("service_healthy"))]);
    let web = Yaml::Mapping(vec![
        entry("image", str_val("example/web")),
        entry("ports", Yaml::Sequence(vec![str_val("8080:8080")])),
        entry("depends_on", Yaml::Mapping(vec![entry("api", dep)])),
    ]);
    let api = Yaml::Mapping(vec![
        entry("image", str_val("example/api")),
        entry("ports", Yaml::Sequence(vec![str_val("3000:3000")])),
    ]);
    let doc = Yaml::Mapping(vec![entry(
        "services",
        Yaml::Mapping(vec![entry("api", api), entry("web", web)]),
    )]);
    let d = derive_compose(
        doc,
        "/work/compose.yaml",
        "/work",
        "sanelens_run_0a1b2c",
        None,
        &config(true, false),
    )
    .expect("derivation");
    let svcs = services_of(&d.doc);
    let web_app = match map_get_ref(svcs, "web-app") {
        Some(Yaml::Mapping(m)) => m,
        _ => panic!("web-app missing"),
    };
    match map_get_ref(web_app, "depends_on") {
        Some(Yaml::Mapping(deps)) => {
            assert!(map_get_ref(deps, "api-app").is_some());
            assert!(map_get_ref(deps, "api").is_none());
        }
        _ => panic!("web-app without depends_on"),
    }
}

#[test]
fn relative_paths_resolve_against_compose_directory() {
    let service = Yaml::Mapping(vec![
        entry("build", str_val("./backend")),
        entry(
            "volumes",
            Yaml::Sequence(vec![str_val("./data:/var/lib/data")]),
        ),
        entry("env_file", str_val("service.env")),
    ]);
    let doc = Yaml::Mapping(vec![entry(
        "services",
        Yaml::Mapping(vec![entry("svc", service)]),
    )]);
    let d = derive_compose(
        doc,
        "/work/compose.yaml",
        "/work",
        "sanelens_run_0a1b2c",
        None,
        &config(false, false),
    )
    .expect("derivation");
    let svcs = services_of(&d.doc);
    let svc = match map_get_ref(svcs, "svc") {
        Some(Yaml::Mapping(m)) => m,
        _ => panic!("service missing"),
    };
    assert_eq!(map_get_str(svc, "build"), Some("/work/./backend".to_string()));
    assert_eq!(
        map_get_str(svc, "env_file"),
        Some("/work/service.env".to_string())
    );
    match map_get_ref(svc, "volumes") {
        Some(Yaml::Sequence(l)) => match &l[0] {
            Yaml::Str(s) => assert_eq!(s, "/work/./data:/var/lib/data"),
            _ => panic!("volume entry changed shape"),
        },
        _ => panic!("service without volumes"),
    }
}

#[test]
fn derivation_differs_only_in_started_at() {
    let make = |ts: &str| {
        let mut c = config(true, false);
        c.run_started_at = ts.to_string();
        derive_compose(
            single_service_doc("api", vec!["8080:3000"]),
            "/work/compose.yaml",
            "/work",
            "sanelens_run_0a1b2c",
            None,
            &c,
        )
        .expect("derivation")
    };
    let a = make("2026-01-08T00:00:00Z");
    let b = make("2026-01-08T11:11:11Z");
    let sa = services_of(&a.doc);
    let sb = services_of(&b.doc);
    assert_eq!(sa.len(), sb.len());
    for (ea, eb) in sa.iter().zip(sb.iter()) {
        let (ka, va) = ea;
        let (kb, _vb) = eb;
        match (ka, kb) {
            (Yaml::Str(x), Yaml::Str(y)) => assert_eq!(x, y),
            _ => panic!("non-string service key"),
        }
        if let Yaml::Mapping(ma) = va {
            let la = labels_of(ma);
            let lb = labels_of(match &eb.1 {
                Yaml::Mapping(mb) => mb,
                _ => panic!("shape changed"),
            });
            assert_eq!(la.len(), lb.len());
            for (xa, xb) in la.iter().zip(lb.iter()) {
                if xa.starts_with("sanelens.started.at=") {
                    assert!(xb.starts_with("sanelens.started.at="));
                    assert_eq!(xa, "sanelens.started.at=2026-01-08T00:00:00Z");
                    assert_eq!(xb, "sanelens.started.at=2026-01-08T11:11:11Z");
                } else {
                    assert_eq!(xa, xb);
                }
            }
        }
    }
    assert_eq!(a.envoy_configs[0].1, b.envoy_configs[0].1);
}

#[test]
fn opt_out_label_keeps_service_single() {
    let service = Yaml::Mapping(vec![
        entry("image", str_val("example/raw")),
        entry("ports", Yaml::Sequence(vec![str_val("9000:9000")])),
        entry(
            "labels",
            Yaml::Sequence(vec![str_val("sanelens.proxy=off")]),
        ),
    ]);
    let doc = Yaml::Mapping(vec![entry(
        "services",
        Yaml::Mapping(vec![entry("raw", service)]),
    )]);
    let d = derive_compose(
        doc,
        "/work/compose.yaml",
        "/work",
        "sanelens_run_0a1b2c",
        None,
        &config(true, false),
    )
    .expect("derivation");
    let svcs = services_of(&d.doc);
    assert!(map_get_ref(svcs, "raw").is_some());
    assert!(map_get_ref(svcs, "raw-app").is_none());
}

#[test]
fn missing_services_is_an_error() {
    let doc = Yaml::Mapping(vec![entry("networks", Yaml::Mapping(Vec::new()))]);
    let r = derive_compose(
        doc,
        "/work/compose.yaml",
        "/work",
        "p",
        None,
        &config(true, false),
    );
    assert!(r.is_err());
}

#[test]
fn run_labels_and_project_name_are_stamped() {
    let labels = RunLabels {
        run_id: "run_aabbcc".to_string(),
        compose_file: "/work/compose.yaml".to_string(),
        derived_compose: "/work/.sanelens/p/compose.derived.yaml".to_string(),
        project_name: "p".to_string(),
    };
    let mut svc: Vec<(Yaml, Yaml)> = vec![entry("image", str_val("x"))];
    sanelens::derive::add_run_labels(&mut svc, "api", &labels);
    let lines = labels_of(&svc);
    assert!(lines.contains(&"sanelens.run.id=run_aabbcc".to_string()));
    assert!(lines.contains(&"sanelens.service=api".to_string()));
    assert!(lines.contains(&"sanelens.compose.file=/work/compose.yaml".to_string()));
    assert!(lines.contains(&"sanelens.project.name=p".to_string()));
}
