use ratpack::handler::{compose, Handler};
use ratpack::message::{Method, Request, Response};
use ratpack::params::Params;
use ratpack::router::{Route, Router};
use ratpack::state::AppHandle;
use ratpack::{HTTPResult, NoState, TransientState};

#[derive(Clone)]
struct State;

#[derive(Clone)]
struct HelloState {
    name: Option<String>,
}

impl TransientState for HelloState {
    fn initial() -> Self {
        Self { name: None }
    }
}

type NF = fn(Request, Option<Response>, Params, AppHandle<State>, NoState) -> HTTPResult<NoState>;

type HF =
    fn(Request, Option<Response>, Params, AppHandle<State>, HelloState) -> HTTPResult<HelloState>;

fn handler_dynamic_nostate(
    req: Request,
    _response: Option<Response>,
    params: Params,
    _app: AppHandle<State>,
    _state: NoState,
) -> HTTPResult<NoState> {
    let name = params.get(&"name".to_string()).unwrap().clone();
    Ok((
        req,
        Some(Response::with_body(
            400,
            format!("hello, {}", name).into_bytes(),
        )),
        NoState,
    ))
}

fn handler_static_nostate(
    req: Request,
    _response: Option<Response>,
    _params: Params,
    _app: AppHandle<State>,
    _state: NoState,
) -> HTTPResult<NoState> {
    Ok((
        req,
        Some(Response::with_body(400, b"hello, world".to_vec())),
        NoState,
    ))
}

fn handler_dynamic(
    req: Request,
    _response: Option<Response>,
    params: Params,
    _app: AppHandle<State>,
    mut state: HelloState,
) -> HTTPResult<HelloState> {
    let name = params.get(&"name".to_string()).unwrap().clone();
    state.name = Some(name.clone());

    Ok((
        req,
        Some(Response::with_body(
            200,
            format!("hello, {}", state.clone().name.unwrap()).into_bytes(),
        )),
        state,
    ))
}

fn handler_continued(
    req: Request,
    _response: Option<Response>,
    _params: Params,
    _app: AppHandle<State>,
    state: HelloState,
) -> HTTPResult<HelloState> {
    Ok((
        req,
        Some(Response::with_body(
            200,
            format!("hello, {}", state.clone().name.unwrap()).into_bytes(),
        )),
        state,
    ))
}

fn handler_static(
    req: Request,
    _response: Option<Response>,
    _params: Params,
    _app: AppHandle<State>,
    _state: HelloState,
) -> HTTPResult<HelloState> {
    Ok((
        req,
        Some(Response::with_body(400, b"hello, world".to_vec())),
        HelloState::initial(),
    ))
}

fn post_request(path: &str, body: &[u8]) -> Request {
    let mut req = Request::new(Method::Post, path.to_string());
    req.body = body.to_vec();
    req
}

#[test]
fn test_route_dynamic() {
    let route = Route::new(
        Method::Get,
        "/a/:name/c".to_string(),
        Handler::new(handler_dynamic_nostate as NF, None),
    );

    assert!(route
        .dispatch(
            "/a".to_string(),
            Request::default(),
            AppHandle::none(),
            NoState
        )
        .is_err());
    assert!(route
        .dispatch(
            "/a/b/c".to_string(),
            post_request("/", b"one=two"),
            AppHandle::none(),
            NoState,
        )
        .is_err());

    for name in vec![
        "erik", "adam", "sean", "travis", "joseph", "grant", "joy", "steve", "marc",
    ] {
        assert!(route
            .dispatch(
                "/a/:name/c".to_string(),
                Request::default(),
                AppHandle::none(),
                NoState
            )
            .is_ok());

        let path = format!("/a/{}/c", name);

        let body = route
            .dispatch(path.clone(), Request::default(), AppHandle::none(), NoState)
            .unwrap()
            .1
            .unwrap()
            .body;

        assert_eq!(body, format!("hello, {}", name).into_bytes());

        let status = route
            .dispatch(path, Request::default(), AppHandle::none(), NoState)
            .unwrap()
            .1
            .unwrap()
            .status;

        assert_eq!(status, 400);
    }
}

#[test]
fn test_route_static() {
    let route = Route::new(
        Method::Get,
        "/a/b/c".to_string(),
        Handler::new(handler_static_nostate as NF, None),
    );

    assert!(route
        .dispatch(
            "/a".to_string(),
            Request::default(),
            AppHandle::none(),
            NoState
        )
        .is_err());
    assert!(route
        .dispatch(
            "/a/b/c".to_string(),
            post_request("/", b"one=two"),
            AppHandle::none(),
            NoState,
        )
        .is_err());

    assert!(route
        .dispatch(
            "/a/b/c".to_string(),
            Request::default(),
            AppHandle::none(),
            NoState
        )
        .is_ok());

    let body = route
        .dispatch(
            "/a/b/c".to_string(),
            Request::default(),
            AppHandle::none(),
            NoState,
        )
        .unwrap()
        .1
        .unwrap()
        .body;

    assert_eq!(body, b"hello, world".to_vec());

    let status = route
        .dispatch(
            "/a/b/c".to_string(),
            Request::default(),
            AppHandle::none(),
            NoState,
        )
        .unwrap()
        .1
        .unwrap()
        .status;

    assert_eq!(status, 400);
}

#[test]
fn test_router() {
    let mut router = Router::new();

    router.add(
        Method::Get,
        "/a/b/c".to_string(),
        Handler::new(handler_static as HF, None),
    );

    router.add(
        Method::Get,
        "/c/b/a/:name".to_string(),
        Handler::new(handler_dynamic as HF, None),
    );

    router.add(
        Method::Get,
        "/with_state/:name".to_string(),
        compose(vec![handler_dynamic as HF, handler_continued as HF]),
    );

    let response = router.dispatch(
        Request::new(Method::Get, "/a/b/c".to_string()),
        AppHandle::none(),
    );
    assert!(response.is_ok());

    let body = response.unwrap().body;
    assert_eq!(body, b"hello, world".to_vec());

    for name in vec![
        "erik", "adam", "sean", "travis", "joseph", "grant", "joy", "steve", "marc",
    ] {
        let response = router.dispatch(
            Request::new(Method::Get, format!("/c/b/a/{}", name)),
            AppHandle::none(),
        );
        assert!(response.is_ok());

        let body = response.unwrap().body;
        assert_eq!(body, format!("hello, {}", name).into_bytes());

        let response = router.dispatch(
            Request::new(Method::Get, format!("/with_state/{}", name)),
            AppHandle::none(),
        );

        assert!(response.is_ok());

        let body = response.unwrap().body;
        assert_eq!(body, format!("hello, {}", name).into_bytes());
    }

    for bad_route in vec!["/", "/bad", "/bad/route", "/a/b/c/param", "/c/b/a/0/bad"] {
        let response = router.dispatch(
            Request::new(Method::Get, bad_route.to_string()),
            AppHandle::none(),
        );
        assert!(response.is_err());
    }
}

#[test]
fn test_router_first_match_in_registration_order() {
    let mut router = Router::new();

    router.add(
        Method::Get,
        "/a/b/c".to_string(),
        Handler::new(handler_static as HF, None),
    );
    router.add(
        Method::Get,
        "/a/:name/c".to_string(),
        Handler::new(handler_dynamic as HF, None),
    );

    // the literal route was registered first, so it wins for /a/b/c
    let response = router
        .dispatch(
            Request::new(Method::Get, "/a/b/c".to_string()),
            AppHandle::none(),
        )
        .unwrap();
    assert_eq!(response.body, b"hello, world".to_vec());
    assert_eq!(response.status, 400);

    // any other middle segment reaches the dynamic route
    let response = router
        .dispatch(
            Request::new(Method::Get, "/a/z/c".to_string()),
            AppHandle::none(),
        )
        .unwrap();
    assert_eq!(response.body, b"hello, z".to_vec());
    assert_eq!(response.status, 200);
}

#[test]
fn test_route_sort_key() {
    let route = Route::new(
        Method::Get,
        "/a/:name/c".to_string(),
        Handler::new(handler_dynamic_nostate as NF, None),
    );
    assert_eq!(route.sort_key(), "GET /a/:name/c".to_string());

    let route = Route::new(
        Method::Post,
        "/".to_string(),
        Handler::new(handler_static_nostate as NF, None),
    );
    assert_eq!(route.sort_key(), "POST /".to_string());
}

#[test]
fn test_route_method_mismatch_is_not_found() {
    let route = Route::new(
        Method::Get,
        "/a/b/c".to_string(),
        Handler::new(handler_static_nostate as NF, None),
    );
    let err = route
        .dispatch(
            "/a/b/c".to_string(),
            post_request("/a/b/c", b""),
            AppHandle::none(),
            NoState,
        )
        .unwrap_err();
    match err {
        ratpack::Error::StatusCode(status, msg) => {
            assert_eq!(status, 404);
            assert_eq!(msg, "".to_string());
        }
        _ => panic!("expected a status-code error"),
    }
}
