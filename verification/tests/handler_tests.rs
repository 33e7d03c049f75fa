use ratpack::handler::{compose, Handler};
use ratpack::message::{Request, Response};
use ratpack::params::Params;
use ratpack::state::AppHandle;
use ratpack::{Error, HTTPResult, NoState};

#[derive(Clone)]
struct State;

type HF = fn(Request, Option<Response>, Params, AppHandle<State>, NoState) -> HTTPResult<NoState>;

// this method adds a header:
// wakka: wakka wakka
// to the request. that's it!
fn one(
    mut req: Request,
    _response: Option<Response>,
    _params: Params,
    _app: AppHandle<State>,
    _state: NoState,
) -> HTTPResult<NoState> {
    req.headers
        .insert("wakka".to_string(), "wakka wakka".to_string());
    Ok((req, None, NoState))
}

// this method returns an OK status when the wakka header exists.
fn two(
    req: Request,
    mut response: Option<Response>,
    _params: Params,
    _app: AppHandle<State>,
    _state: NoState,
) -> HTTPResult<NoState> {
    if let Some(header) = req.headers.get(&"wakka".to_string()) {
        if header.as_str() != "wakka wakka" {
            return Err(Error::new("invalid header value"));
        }

        if response.is_some() {
            return Ok((req, response, NoState));
        } else {
            let resp = Response::new(200);
            response.replace(resp);

            return Ok((req, response, NoState));
        }
    }

    Err(Error::default())
}

#[test]
fn test_handler_basic() {
    // single stage handler that never yields a response
    let bh = Handler::new(one as HF, None);
    let req = Request::default();
    let (req, response, _) = bh
        .perform(req, None, Params::new(), AppHandle::none(), NoState)
        .unwrap();

    assert!(req.headers.get(&"wakka".to_string()).is_some());
    assert!(response.is_none());

    // two-stage handler; yields a response if the first one was good.
    let bh_two = Handler::new(two as HF, None);
    let bh = Handler::new(one as HF, Some(bh_two.clone()));
    let (_, response, _) = bh
        .perform(req, None, Params::new(), AppHandle::none(), NoState)
        .unwrap();

    assert!(response.is_some() && response.unwrap().status == 200);

    assert!(bh_two
        .perform(
            Request::default(),
            None,
            Params::new(),
            AppHandle::none(),
            NoState
        )
        .is_err());

    drop(bh)
}

#[test]
fn test_handler_macro() {
    let handler = compose(vec![one as HF, two as HF]);

    let (req, response, _) = handler
        .perform(
            Request::default(),
            None,
            Params::new(),
            AppHandle::none(),
            NoState,
        )
        .unwrap();

    assert_eq!(
        req.headers.get(&"wakka".to_string()).unwrap().as_str(),
        "wakka wakka"
    );
    assert_eq!(response.unwrap().status, 200);

    let handler = compose(vec![one as HF]);

    let (req, response, _) = handler
        .perform(
            Request::default(),
            None,
            Params::new(),
            AppHandle::none(),
            NoState,
        )
        .unwrap();

    assert_eq!(
        req.headers.get(&"wakka".to_string()).unwrap().as_str(),
        "wakka wakka"
    );
    assert!(response.is_none());

    let handler = compose(vec![two as HF]);

    assert!(handler
        .perform(
            Request::default(),
            None,
            Params::new(),
            AppHandle::none(),
            NoState
        )
        .is_err());
}
