use grpc::client::CallOptions;
use grpc::rpc::{RecvMessage, RequestHeaders, SendMessage, ServerResponseStreamItem, Trailers};
use grpc::server::descriptor::{MethodDescriptor, MethodType, ServiceDescriptor};
use grpc::server::interceptor::{ComposedIntercept, HandleExt, Identity, Intercept, Intercepted};
use grpc::server::router::{Router, RouterBuilder};
use grpc::server::service::{Registrations, Service, ServiceExt, ServiceRegistrar};
use grpc::server::{Handle, RecvStream, SendOptions, SendStream, Server};
use grpc::status::StatusCodeError;
use std::sync::{Arc, Mutex};

struct MockSendStream;

impl SendStream for MockSendStream {
    fn send<M: SendMessage>(
        &mut self,
        _item: ServerResponseStreamItem<'_, M>,
        _options: SendOptions,
    ) -> Result<(), ()> {
        Ok(())
    }
}

struct MockRecvStream;

impl RecvStream for MockRecvStream {
    fn next<M: RecvMessage>(&mut self, _msg: &mut M) -> Option<Result<(), ()>> {
        None
    }
}

fn call<H: Handle>(handler: &H, method: &str) -> Trailers {
    let headers = RequestHeaders::new().with_method_name(method);
    handler.handle(headers, CallOptions::default(), MockSendStream, MockRecvStream).0
}

/// A handler that records its method name when called and returns OK.
struct RecordingHandler {
    called_with: Arc<Mutex<Option<String>>>,
}

impl Handle for RecordingHandler {
    fn handle<Tx: SendStream, Rx: RecvStream>(
        &self,
        headers: RequestHeaders,
        _options: CallOptions,
        tx: Tx,
        _rx: Rx,
    ) -> (Trailers, Tx) {
        *self.called_with.lock().unwrap() = Some(headers.method_name().to_string());
        (Trailers::new(Ok(())), tx)
    }
}

fn unary(path: &'static str) -> MethodDescriptor {
    MethodDescriptor::new(path, MethodType::Unary)
}

#[test]
fn test_registered_method_dispatches() {
    let called_with = Arc::new(Mutex::new(None));
    let handler = RecordingHandler {
        called_with: called_with.clone(),
    };

    let router = RouterBuilder::new().add_method(unary("/pkg.Svc/Method"), handler).build();

    let trailers = call(&router, "/pkg.Svc/Method");

    assert!(trailers.status().is_ok());
    assert_eq!(*called_with.lock().unwrap(), Some("/pkg.Svc/Method".to_string()));
}

#[test]
fn test_unregistered_method_returns_unimplemented() {
    let router = RouterBuilder::<Identity, RecordingHandler>::new().build();

    let trailers = call(&router, "/pkg.Svc/NoSuchMethod");

    let err = trailers.status().as_ref().unwrap_err();
    assert_eq!(err.code(), StatusCodeError::Unimplemented);
    assert!(
        err.message().contains("/pkg.Svc/NoSuchMethod"),
        "error message should contain the method name, got: {}",
        err.message()
    );
}

#[test]
fn test_last_one_wins_for_duplicate_paths() {
    let first_called = Arc::new(Mutex::new(None));
    let second_called = Arc::new(Mutex::new(None));

    let first_handler = RecordingHandler {
        called_with: first_called.clone(),
    };
    let second_handler = RecordingHandler {
        called_with: second_called.clone(),
    };

    let router = RouterBuilder::new()
        .add_method(unary("/pkg.Svc/Method"), first_handler)
        .add_method(unary("/pkg.Svc/Method"), second_handler)
        .build();

    let trailers = call(&router, "/pkg.Svc/Method");

    assert!(trailers.status().is_ok());
    // The second handler should have been called (last-one-wins).
    assert_eq!(*second_called.lock().unwrap(), Some("/pkg.Svc/Method".to_string()));
    // The first handler should NOT have been called.
    assert!(first_called.lock().unwrap().is_none());
}

struct MockService {
    handler_a: RecordingHandler,
    handler_b: RecordingHandler,
}

impl Service<RecordingHandler> for MockService {
    fn descriptor(&self) -> ServiceDescriptor {
        ServiceDescriptor::new(
            "mock.MockService",
            vec![unary("/mock.MockService/MethodA"), unary("/mock.MockService/MethodB")],
        )
    }

    fn register_methods<R: ServiceRegistrar<RecordingHandler>>(self, registrar: &mut R) {
        registrar.register_method(unary("/mock.MockService/MethodA"), self.handler_a);
        registrar.register_method(unary("/mock.MockService/MethodB"), self.handler_b);
    }
}

#[test]
fn test_add_service_visitor_pattern() {
    let method_a_called = Arc::new(Mutex::new(None));
    let method_b_called = Arc::new(Mutex::new(None));

    let handler_a = RecordingHandler {
        called_with: method_a_called.clone(),
    };
    let handler_b = RecordingHandler {
        called_with: method_b_called.clone(),
    };

    let service = MockService {
        handler_a,
        handler_b,
    };

    let router = RouterBuilder::new().add_service(service).build();

    // Dispatch to MethodA.
    let trailers = call(&router, "/mock.MockService/MethodA");
    assert!(trailers.status().is_ok());
    assert_eq!(
        *method_a_called.lock().unwrap(),
        Some("/mock.MockService/MethodA".to_string())
    );

    // Dispatch to MethodB.
    let trailers = call(&router, "/mock.MockService/MethodB");
    assert!(trailers.status().is_ok());
    assert_eq!(
        *method_b_called.lock().unwrap(),
        Some("/mock.MockService/MethodB".to_string())
    );
}

#[test]
fn test_router_builder_default() {
    let router = RouterBuilder::<Identity, RecordingHandler>::default().build();

    let trailers = call(&router, "/any.Service/AnyMethod");

    let err = trailers.status().as_ref().unwrap_err();
    assert_eq!(err.code(), StatusCodeError::Unimplemented);
}

// --- Interceptors ---

/// An interceptor that pushes its `id` into a shared order vec, then
/// delegates to `next`.
#[derive(Clone)]
struct OrderInterceptor {
    id: usize,
    order: Arc<Mutex<Vec<usize>>>,
}

impl Intercept for OrderInterceptor {
    fn intercept<Tx: SendStream, Rx: RecvStream, H: Handle>(
        &self,
        headers: RequestHeaders,
        options: CallOptions,
        tx: Tx,
        rx: Rx,
        next: &H,
    ) -> (Trailers, Tx) {
        self.order.lock().unwrap().push(self.id);
        next.handle(headers, options, tx, rx)
    }
}

/// A handler that pushes `0` into the shared order vec.
struct OrderHandler {
    order: Arc<Mutex<Vec<usize>>>,
}

impl Handle for OrderHandler {
    fn handle<Tx: SendStream, Rx: RecvStream>(
        &self,
        _headers: RequestHeaders,
        _options: CallOptions,
        tx: Tx,
        _rx: Rx,
    ) -> (Trailers, Tx) {
        self.order.lock().unwrap().push(0);
        (Trailers::new(Ok(())), tx)
    }
}

fn interceptor(id: usize, order: &Arc<Mutex<Vec<usize>>>) -> OrderInterceptor {
    OrderInterceptor {
        id,
        order: order.clone(),
    }
}

#[test]
fn test_router_builder_with_single_interceptor() {
    let order = Arc::new(Mutex::new(Vec::new()));
    let handler = OrderHandler {
        order: order.clone(),
    };

    let router = RouterBuilder::new_with_interceptor(interceptor(1, &order))
        .add_method(unary("/pkg.Svc/Method"), handler)
        .build();

    let trailers = call(&router, "/pkg.Svc/Method");

    assert!(trailers.status().is_ok());
    // Interceptor (1) should run before handler (0).
    assert_eq!(*order.lock().unwrap(), vec![1, 0]);
}

#[test]
fn test_router_builder_with_chained_interceptors() {
    let order = Arc::new(Mutex::new(Vec::new()));

    let auth = interceptor(1, &order);
    let logging = interceptor(2, &order);
    let handler = OrderHandler {
        order: order.clone(),
    };

    // First-added-first: auth (added first) should run before logging.
    let chain = ComposedIntercept::new(auth, logging);
    let router = RouterBuilder::new_with_interceptor(chain)
        .add_method(unary("/pkg.Svc/Method"), handler)
        .build();

    let trailers = call(&router, "/pkg.Svc/Method");

    assert!(trailers.status().is_ok());
    // Execution order: auth(1) → logging(2) → handler(0).
    assert_eq!(*order.lock().unwrap(), vec![1, 2, 0]);
}

struct OneMethod {
    handler: OrderHandler,
}

impl Service<OrderHandler> for OneMethod {
    fn descriptor(&self) -> ServiceDescriptor {
        ServiceDescriptor::new(
            "test.InterceptedService",
            vec![unary("/test.InterceptedService/Method")],
        )
    }

    fn register_methods<R: ServiceRegistrar<OrderHandler>>(self, registrar: &mut R) {
        registrar.register_method(unary("/test.InterceptedService/Method"), self.handler);
    }
}

#[test]
fn test_router_builder_interceptor_with_add_service() {
    let order = Arc::new(Mutex::new(Vec::new()));

    let service = OneMethod {
        handler: OrderHandler {
            order: order.clone(),
        },
    };

    let router = RouterBuilder::new_with_interceptor(interceptor(1, &order))
        .add_service(service)
        .build();

    let trailers = call(&router, "/test.InterceptedService/Method");

    assert!(trailers.status().is_ok());
    // Interceptor (1) should run before handler (0) even via add_service.
    assert_eq!(*order.lock().unwrap(), vec![1, 0]);
}

#[test]
fn a_service_can_have_an_interceptor_of_its_own() {
    let order = Arc::new(Mutex::new(Vec::new()));
    let service = OneMethod {
        handler: OrderHandler {
            order: order.clone(),
        },
    };
    let router = RouterBuilder::new_with_interceptor(interceptor(1, &order))
        .add_service(service.with_interceptor(interceptor(2, &order)))
        .build();
    call(&router, "/test.InterceptedService/Method");
    assert_eq!(*order.lock().unwrap(), vec![1, 2, 0]);
}

#[test]
fn a_handler_can_have_interceptors_of_its_own() {
    let order = Arc::new(Mutex::new(Vec::new()));
    let handler = OrderHandler {
        order: order.clone(),
    };
    let handler = handler
        .with_interceptor(interceptor(2, &order))
        .with_interceptor(Identity {})
        .with_interceptor(interceptor(1, &order));
    call(&handler, "/a/B");
    assert_eq!(*order.lock().unwrap(), vec![1, 2, 0]);
}

#[test]
fn composition_is_associative() {
    for left in [true, false] {
        let order = Arc::new(Mutex::new(Vec::new()));
        let a = interceptor(1, &order);
        let b = interceptor(2, &order);
        let c = interceptor(3, &order);
        let handler = OrderHandler {
            order: order.clone(),
        };
        if left {
            let ab = ComposedIntercept::new(a, b);
            call(&handler.with_interceptor(ComposedIntercept::new(ab, c)), "/a/B");
        } else {
            let bc = ComposedIntercept::new(b, c);
            call(&handler.with_interceptor(ComposedIntercept::new(a, bc)), "/a/B");
        }
        assert_eq!(*order.lock().unwrap(), vec![1, 2, 3, 0]);
    }
}

#[test]
fn unknown_methods_reach_no_interceptor() {
    let order = Arc::new(Mutex::new(Vec::new()));
    let handler = OrderHandler {
        order: order.clone(),
    };
    let router = RouterBuilder::new_with_interceptor(interceptor(1, &order))
        .add_method(unary("/a/B"), handler)
        .build();
    let trailers = call(&router, "/a/C");
    assert_eq!(trailers.status().as_ref().unwrap_err().message(), "unknown method: /a/C");
    assert!(order.lock().unwrap().is_empty());
}

// --- Servers ---

struct TestService {
    order: Arc<Mutex<Vec<usize>>>,
}

impl Service<OrderHandler> for TestService {
    fn descriptor(&self) -> ServiceDescriptor {
        ServiceDescriptor::new("test.Svc", vec![unary("/test.Svc/Method")])
    }

    fn register_methods<R: ServiceRegistrar<OrderHandler>>(self, registrar: &mut R) {
        registrar.register_method(unary("/test.Svc/Method"), OrderHandler { order: self.order });
    }
}

type Plain = Server<Router<Intercepted<Arc<Identity>, OrderHandler>>>;

#[test]
fn server_builder_builds_without_services() {
    // Should not panic — creates a server with empty router.
    let _server = Plain::builder().build();
}

#[test]
fn server_builder_with_interceptor_chain_and_service() {
    let order = Arc::new(Mutex::new(Vec::new()));
    let chain = ComposedIntercept::new(interceptor(1, &order), interceptor(2, &order));

    let svc = TestService {
        order: order.clone(),
    };

    // This should not panic — the chain is applied at add_service time.
    let server = Server::builder_with(chain).add_service(svc).build();

    let router = server.handler().expect("a built server has a handler");
    assert!(call(&*router, "/test.Svc/Method").status().is_ok());
    assert_eq!(*order.lock().unwrap(), vec![1, 2, 0]);
}

struct SvcA;

impl Service<OrderHandler> for SvcA {
    fn descriptor(&self) -> ServiceDescriptor {
        ServiceDescriptor::new("test.A", vec![])
    }
    fn register_methods<R: ServiceRegistrar<OrderHandler>>(self, _registrar: &mut R) {}
}

struct SvcB;

impl Service<OrderHandler> for SvcB {
    fn descriptor(&self) -> ServiceDescriptor {
        ServiceDescriptor::new("test.B", vec![])
    }
    fn register_methods<R: ServiceRegistrar<OrderHandler>>(self, _registrar: &mut R) {}
}

#[test]
fn server_builder_multiple_services() {
    let _server = Plain::builder().add_service(SvcA).add_service(SvcB).build();
}

#[test]
fn a_server_has_the_handler_that_was_set() {
    let order = Arc::new(Mutex::new(Vec::new()));
    let mut server = Server::new();
    assert!(server.handler().is_none());
    server.set_handler(OrderHandler {
        order: order.clone(),
    });
    call(&*server.handler().unwrap(), "/a/B");
    assert_eq!(*order.lock().unwrap(), vec![0]);
    assert!(Server::<OrderHandler>::default().handler().is_none());
}

#[test]
fn registrations_are_kept_in_order() {
    let mut registrations = Registrations::new();
    registrations.register_method(unary("/a/B"), 1);
    registrations.register_method(unary("/a/C"), 2);
    let list = registrations.into_list();
    assert_eq!(list[0].0.full_path, "/a/B");
    assert_eq!(list[1].0.full_path, "/a/C");
    assert_eq!((list[0].1, list[1].1), (1, 2));
}
