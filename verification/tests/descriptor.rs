use grpc::server::descriptor::{MethodDescriptor, MethodType, ServiceDescriptor};
use std::borrow::Cow;

#[test]
fn method_type_variants() {
    assert_eq!(MethodType::Unary, MethodType::Unary);
    assert_ne!(MethodType::Unary, MethodType::ClientStreaming);
    assert_ne!(MethodType::ServerStreaming, MethodType::BidiStreaming);
}

#[test]
fn method_descriptor_static_is_borrowed() {
    let desc = MethodDescriptor::new_static("/pkg.Svc/Method", MethodType::Unary);
    assert!(matches!(desc.full_path, Cow::Borrowed(_)));
    assert_eq!(desc.full_path, "/pkg.Svc/Method");
    assert_eq!(desc.method_type, MethodType::Unary);
}

#[test]
fn method_descriptor_dynamic_is_owned() {
    let desc = MethodDescriptor::new("/pkg.Svc/Method".to_string(), MethodType::ServerStreaming);
    assert!(matches!(desc.full_path, Cow::Owned(_)));
    assert_eq!(desc.full_path, "/pkg.Svc/Method");
    assert_eq!(desc.method_type, MethodType::ServerStreaming);
}

#[test]
fn method_descriptor_new_accepts_str() {
    let desc = MethodDescriptor::new("/pkg.Svc/Method", MethodType::Unary);
    assert_eq!(desc.full_path, "/pkg.Svc/Method");
}

#[test]
fn method_descriptor_clone() {
    let desc = MethodDescriptor::new_static("/pkg.Svc/Method", MethodType::BidiStreaming);
    let cloned = desc.clone();
    assert_eq!(cloned.full_path, desc.full_path);
    assert_eq!(cloned.method_type, desc.method_type);
}

#[test]
fn service_descriptor_static_is_borrowed() {
    let methods: &'static [MethodDescriptor] = Box::leak(
        vec![
            MethodDescriptor::new_static("/pkg.Svc/M1", MethodType::Unary),
            MethodDescriptor::new_static("/pkg.Svc/M2", MethodType::ServerStreaming),
        ]
        .into_boxed_slice(),
    );
    let desc = ServiceDescriptor::new_static("pkg.Svc", methods);
    assert!(matches!(desc.name, Cow::Borrowed(_)));
    assert!(matches!(desc.methods, Cow::Borrowed(_)));
    assert_eq!(desc.name, "pkg.Svc");
    assert_eq!(desc.methods.len(), 2);
}

#[test]
fn service_descriptor_dynamic_is_owned() {
    let desc = ServiceDescriptor::new(
        "pkg.Svc",
        vec![MethodDescriptor::new("/pkg.Svc/M1", MethodType::Unary)],
    );
    assert!(matches!(desc.name, Cow::Owned(_)));
    assert!(matches!(desc.methods, Cow::Owned(_)));
    assert_eq!(desc.name, "pkg.Svc");
    assert_eq!(desc.methods.len(), 1);
}

#[test]
fn service_descriptor_empty_methods() {
    let desc = ServiceDescriptor::new("pkg.Empty", vec![]);
    assert_eq!(desc.methods.len(), 0);
}

#[test]
fn service_descriptor_clone() {
    let desc = ServiceDescriptor::new(
        "pkg.Svc",
        vec![MethodDescriptor::new("/pkg.Svc/M1", MethodType::Unary)],
    );
    let cloned = desc.clone();
    assert_eq!(cloned.name, desc.name);
    assert_eq!(cloned.methods.len(), desc.methods.len());
}

#[test]
fn clones_keep_what_is_borrowed_and_what_is_owned() {
    let owned = MethodDescriptor::new("/a/B", MethodType::Unary).clone();
    assert!(matches!(owned.full_path, Cow::Owned(_)));
    assert_eq!(owned.into_path(), "/a/B");
    let borrowed = MethodDescriptor::new_static("/a/C", MethodType::Unary).clone();
    assert!(matches!(borrowed.full_path, Cow::Borrowed(_)));
    assert_eq!(borrowed.into_path(), "/a/C");
}
