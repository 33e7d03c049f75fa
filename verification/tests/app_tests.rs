use ratpack::app::{App, TestApp};
use ratpack::handler::{compose, Handler};
use ratpack::message::{Headers, Method, Request, Response};
use ratpack::params::Params;
use ratpack::state::AppHandle;
use ratpack::{Error, HTTPResult, NoState, ServerError};

type TraceHF =
    fn(Request, Option<Response>, Params, AppHandle<Vec<String>>, NoState) -> HTTPResult<NoState>;

fn record(app: &AppHandle<Vec<String>>, tag: &str) {
    let shared = app.state().unwrap();
    let (mut trace, guard) = shared.lock();
    trace.push(tag.to_string());
    guard.unlock(trace);
}

fn step_a(
    req: Request,
    response: Option<Response>,
    _params: Params,
    app: AppHandle<Vec<String>>,
    state: NoState,
) -> HTTPResult<NoState> {
    record(&app, "a");
    Ok((req, response, state))
}

fn step_b_fails(
    _req: Request,
    _response: Option<Response>,
    _params: Params,
    app: AppHandle<Vec<String>>,
    _state: NoState,
) -> HTTPResult<NoState> {
    record(&app, "b");
    Err(Error::new("b failed"))
}

fn step_c(
    req: Request,
    response: Option<Response>,
    _params: Params,
    app: AppHandle<Vec<String>>,
    state: NoState,
) -> HTTPResult<NoState> {
    record(&app, "c");
    Ok((req, response, state))
}

#[test]
fn test_chain_short_circuits_on_error() {
    let mut app: App<Vec<String>, TraceHF> = App::with_state(Vec::new());
    app.get(
        "/run",
        compose(vec![step_a as TraceHF, step_b_fails as TraceHF, step_c as TraceHF]),
    );

    let response = app.dispatch(Request::new(Method::Get, "/run".to_string()));
    assert_eq!(response.status, 500);
    assert_eq!(response.body, b"b failed".to_vec());

    let shared = app.state().unwrap();
    let (trace, guard) = shared.lock();
    assert_eq!(trace, vec!["a".to_string(), "b".to_string()]);
    guard.unlock(trace);
}

type NoneHF = fn(Request, Option<Response>, Params, AppHandle<()>, NoState) -> HTTPResult<NoState>;

fn sets_nothing(
    req: Request,
    response: Option<Response>,
    _params: Params,
    _app: AppHandle<()>,
    state: NoState,
) -> HTTPResult<NoState> {
    Ok((req, response, state))
}

#[test]
fn test_chain_without_response_yields_500() {
    let mut app: App<(), NoneHF> = App::new();
    app.get(
        "/quiet",
        compose(vec![sets_nothing as NoneHF, sets_nothing as NoneHF]),
    );

    let response = app.dispatch(Request::new(Method::Get, "/quiet".to_string()));
    assert_eq!(response.status, 500);
    assert_eq!(response.body, Vec::<u8>::new());
}

fn status_teapot(
    _req: Request,
    _response: Option<Response>,
    _params: Params,
    _app: AppHandle<()>,
    _state: NoState,
) -> HTTPResult<NoState> {
    Err(Error::new_status(418, "shorty"))
}

fn ok_hello(
    req: Request,
    _response: Option<Response>,
    _params: Params,
    _app: AppHandle<()>,
    state: NoState,
) -> HTTPResult<NoState> {
    Ok((
        req,
        Some(Response::with_body(200, b"hello".to_vec())),
        state,
    ))
}

#[test]
fn test_error_mapping_at_boundary() {
    let mut app: App<(), NoneHF> = App::new();
    app.get("/teapot", Handler::new(status_teapot as NoneHF, None));

    let response = app.dispatch(Request::new(Method::Get, "/teapot".to_string()));
    assert_eq!(response.status, 418);
    assert_eq!(response.body, b"shorty".to_vec());
}

#[test]
fn test_no_route_conditions() {
    let mut app: App<(), NoneHF> = App::new();
    app.get("/known", Handler::new(ok_hello as NoneHF, None));

    // a completely unknown path
    let response = app.dispatch(Request::new(Method::Get, "/unknown".to_string()));
    assert_eq!(response.status, 405);

    // an unregistered method on a registered path
    let response = app.dispatch(Request::new(Method::Post, "/known".to_string()));
    assert_eq!(response.status, 405);

    // the registered pair still works
    let response = app.dispatch(Request::new(Method::Get, "/known".to_string()));
    assert_eq!(response.status, 200);
    assert_eq!(response.body, b"hello".to_vec());
}

type CounterHF =
    fn(Request, Option<Response>, Params, AppHandle<u64>, NoState) -> HTTPResult<NoState>;

fn increment(
    req: Request,
    _response: Option<Response>,
    _params: Params,
    app: AppHandle<u64>,
    state: NoState,
) -> HTTPResult<NoState> {
    let shared = app.state().unwrap();
    let (count, guard) = shared.lock();
    guard.unlock(count + 1);
    Ok((req, Some(Response::new(200)), state))
}

#[test]
fn test_counter_no_lost_updates() {
    let app: App<u64, CounterHF> = App::with_state(0);
    let mut app = app;
    app.get("/count", Handler::new(increment as CounterHF, None));
    let app = std::sync::Arc::new(app);

    let n: usize = 64;
    let runtime = tokio::runtime::Builder::new_multi_thread()
        .worker_threads(8)
        .build()
        .unwrap();
    runtime.block_on(async {
        let mut joins = Vec::new();
        for _ in 0..n {
            let app = app.clone();
            joins.push(tokio::spawn(async move {
                let response = app.dispatch(Request::new(Method::Get, "/count".to_string()));
                assert_eq!(response.status, 200);
            }));
        }
        for j in joins {
            j.await.unwrap();
        }
    });

    let shared = app.state().unwrap();
    let (count, guard) = shared.lock();
    assert_eq!(count, n as u64);
    guard.unlock(count);
}

fn echo_header(
    req: Request,
    _response: Option<Response>,
    _params: Params,
    _app: AppHandle<()>,
    state: NoState,
) -> HTTPResult<NoState> {
    let value = match req.headers.get(&"tag".to_string()) {
        Some(v) => v.clone(),
        None => "none".to_string(),
    };
    Ok((
        req,
        Some(Response::with_body(200, value.into_bytes())),
        state,
    ))
}

fn echo_body(
    req: Request,
    _response: Option<Response>,
    _params: Params,
    _app: AppHandle<()>,
    state: NoState,
) -> HTTPResult<NoState> {
    let body = req.body.clone();
    Ok((req, Some(Response::with_body(200, body)), state))
}

#[test]
fn test_testapp_requests() {
    let mut app: App<(), NoneHF> = App::new();
    app.get("/tagged", Handler::new(echo_header as NoneHF, None));
    app.post("/echo", Handler::new(echo_body as NoneHF, None));
    app.delete("/tagged", Handler::new(echo_header as NoneHF, None));

    let ta = TestApp::new(app);

    let response = ta.get("/tagged");
    assert_eq!(response.status, 200);
    assert_eq!(response.body, b"none".to_vec());

    let response = ta.post("/echo", b"payload".to_vec());
    assert_eq!(response.status, 200);
    assert_eq!(response.body, b"payload".to_vec());

    let response = ta.delete("/tagged");
    assert_eq!(response.status, 200);

    let mut headers = Headers::new();
    headers.insert("tag".to_string(), "blue".to_string());
    let ta = ta.with_headers(headers);

    let response = ta.get("/tagged");
    assert_eq!(response.status, 200);
    assert_eq!(response.body, b"blue".to_vec());

    let response = ta.dispatch(Request::new(Method::Get, "/missing".to_string()));
    assert_eq!(response.status, 405);
}

#[test]
fn test_error_constructors() {
    match Error::new("boom") {
        Error::InternalServerError(m) => assert_eq!(m, "boom".to_string()),
        _ => panic!("expected an internal error"),
    }
    match Error::new_status(301, "moved") {
        Error::StatusCode(status, m) => {
            assert_eq!(status, 301);
            assert_eq!(m, "moved".to_string());
        }
        _ => panic!("expected a status-code error"),
    }
    match Error::default() {
        Error::InternalServerError(m) => assert_eq!(m, "internal server error".to_string()),
        _ => panic!("expected an internal error"),
    }

    let se = ServerError::new("oops".to_string());
    assert_eq!(se.0, "oops".to_string());
}

#[test]
fn test_app_state_handle() {
    let app: App<u64, CounterHF> = App::with_state(7);
    let shared = app.state().unwrap();
    let (value, guard) = shared.lock();
    assert_eq!(value, 7);
    guard.unlock(value + 1);

    let again = app.state().unwrap();
    let (value, guard) = again.lock();
    assert_eq!(value, 8);
    guard.unlock(value);

    let stateless: App<u64, CounterHF> = App::new();
    assert!(stateless.state().is_none());
}
