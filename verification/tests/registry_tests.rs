use pypi_deps::registry::{
    check_status, parse_deps, registry_url, FetchError, PkgMetadata, Response,
};
use pypi_deps::requirement::Dep;
use std::collections::HashMap;

fn record(requires_dist: Option<Vec<&str>>) -> Response {
    Response {
        info: PkgMetadata {
            version: String::from("1.0"),
            requires_dist: requires_dist.map(|raws| raws.into_iter().map(String::from).collect()),
        },
        releases: HashMap::new(),
    }
}

#[test]
fn address_of_a_package() {
    assert_eq!(registry_url("requests"), "https://pypi.org/pypi/requests/json");
    assert_eq!(registry_url(""), "https://pypi.org/pypi//json");
}

#[test]
fn success_statuses_pass() {
    assert_eq!(check_status(200), Ok(()));
    assert_eq!(check_status(204), Ok(()));
    assert_eq!(check_status(299), Ok(()));
}

#[test]
fn other_statuses_mean_not_found() {
    assert_eq!(check_status(199), Err(FetchError::NotFound { status: 199 }));
    assert_eq!(check_status(300), Err(FetchError::NotFound { status: 300 }));
    assert_eq!(check_status(404), Err(FetchError::NotFound { status: 404 }));
    assert_eq!(check_status(500), Err(FetchError::NotFound { status: 500 }));
    assert_eq!(check_status(0), Err(FetchError::NotFound { status: 0 }));
    assert_eq!(check_status(u16::MAX), Err(FetchError::NotFound { status: u16::MAX }));
}

#[test]
fn status_verdict_agrees_with_the_http_client() {
    for code in 100u16..1000 {
        let status = reqwest::StatusCode::from_u16(code).unwrap();
        assert_eq!(check_status(code).is_ok(), status.is_success());
    }
}

#[test]
fn record_without_requirements_gives_no_dependency() {
    assert_eq!(parse_deps(&record(None)), Vec::<Dep>::new());
    assert_eq!(parse_deps(&record(Some(vec![]))), Vec::<Dep>::new());
}

#[test]
fn record_with_requirements_gives_the_kept_ones() {
    let info = record(Some(vec![
        "charset-normalizer (<4,>=2)",
        "idna<4,>=2.5",
        "PySocks!=1.5.7,>=1.5.6; extra == 'socks'",
        "chardet<6,>=3.0.2; extra == \"use_chardet_on_py3\"",
        "typing; python_version < '3.5'",
        "certifi>='2017.4.17'",
    ]));
    assert_eq!(
        parse_deps(&info),
        vec![
            Dep::new_dep("charset-normalizer", "latest"),
            Dep::new_dep("idna<4,", "2.5"),
            Dep::new_dep("certifi", "2017.4.17"),
        ]
    );
}
