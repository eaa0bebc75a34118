//! Descriptors: what a service and its methods look like, without how they are implemented.

use std::borrow::Cow;
use vstd::prelude::*;

verus! {

/// What can be turned into an owned text.
pub trait IntoText: Sized {
    /// The text.
    spec fn text(&self) -> Seq<char>;

    /// Turns this into an owned text.
    fn into_text(self) -> (r: String)
        ensures
            r@ == self.text(),
    ;
}

impl IntoText for String {
    open spec fn text(&self) -> Seq<char> {
        self@
    }

    fn into_text(self) -> (r: String) {
        self
    }
}

impl<'a> IntoText for &'a str {
    open spec fn text(&self) -> Seq<char> {
        (*self)@
    }

    fn into_text(self) -> (r: String) {
        String::from_str(self)
    }
}

/// How many messages a method takes and gives.
#[derive(Debug, Clone, Copy, PartialEq, Eq, Structural)]
pub enum MethodType {
    /// One request message followed by one response message.
    Unary,
    /// Zero or more request messages with one response message.
    ClientStreaming,
    /// One request message followed by zero or more response messages.
    ServerStreaming,
    /// Zero or more request and response messages, in any order.
    BidiStreaming,
}

/// What a method looks like.
///
/// The path is borrowed where it is known when the program is built, and owned otherwise.
#[derive(Debug)]
pub struct MethodDescriptor {
    /// The full path, for instance `"/helloworld.Greeter/SayHello"`.
    pub full_path: Cow<'static, str>,
    /// How many messages the method takes and gives.
    pub method_type: MethodType,
}

/// What a [`MethodDescriptor`] says.
pub struct MethodDescriptorView {
    /// The full path.
    pub full_path: Seq<char>,
    /// How many messages the method takes and gives.
    pub method_type: MethodType,
}

impl View for MethodDescriptor {
    type V = MethodDescriptorView;

    open spec fn view(&self) -> MethodDescriptorView {
        MethodDescriptorView { full_path: self.full_path@, method_type: self.method_type }
    }
}

impl MethodDescriptor {
    /// A descriptor with a borrowed path.
    pub fn new_static(full_path: &'static str, method_type: MethodType) -> (r: Self)
        ensures
            r.full_path is Borrowed,
            r@ == (MethodDescriptorView { full_path: full_path@, method_type }),
    {
        MethodDescriptor { full_path: Cow::Borrowed(full_path), method_type }
    }

    /// A descriptor with an owned path.
    pub fn new<S: IntoText>(full_path: S, method_type: MethodType) -> (r: Self)
        ensures
            r.full_path is Owned,
            r@ == (MethodDescriptorView { full_path: full_path.text(), method_type }),
    {
        MethodDescriptor { full_path: Cow::Owned(full_path.into_text()), method_type }
    }

    /// The path, owned.
    pub fn into_path(self) -> (r: String)
        ensures
            r@ == self@.full_path,
    {
        match self.full_path {
            Cow::Borrowed(s) => String::from_str(s),
            Cow::Owned(s) => s,
        }
    }
}

impl Clone for MethodDescriptor {
    fn clone(&self) -> (r: Self)
        ensures
            r@ == self@,
            r.full_path is Borrowed <==> self.full_path is Borrowed,
    {
        MethodDescriptor { full_path: clone_text(&self.full_path), method_type: self.method_type }
    }
}

/// A copy of a text, borrowed where it was borrowed.
fn clone_text(text: &Cow<'static, str>) -> (r: Cow<'static, str>)
    ensures
        r@ == text@,
        r is Borrowed <==> text is Borrowed,
{
    match text {
        Cow::Borrowed(s) => Cow::Borrowed(*s),
        Cow::Owned(s) => Cow::Owned(s.clone()),
    }
}

/// What a service looks like.
#[derive(Debug)]
pub struct ServiceDescriptor {
    /// The full name, for instance `"helloworld.Greeter"`.
    pub name: Cow<'static, str>,
    /// The descriptors of all methods.
    pub methods: Cow<'static, [MethodDescriptor]>,
}

/// The methods that a list of descriptors speaks of.
pub open spec fn method_views(methods: Seq<MethodDescriptor>) -> Seq<MethodDescriptorView> {
    methods.map_values(|m: MethodDescriptor| m@)
}

impl ServiceDescriptor {
    /// The descriptors of all methods.
    pub open spec fn spec_methods(&self) -> Seq<MethodDescriptorView> {
        match self.methods {
            Cow::Borrowed(s) => method_views(s@),
            Cow::Owned(v) => method_views(v@),
        }
    }

    /// A descriptor with borrowed parts.
    pub fn new_static(name: &'static str, methods: &'static [MethodDescriptor]) -> (r: Self)
        ensures
            r.name is Borrowed,
            r.methods is Borrowed,
            r.name@ == name@,
            r.spec_methods() == method_views(methods@),
    {
        ServiceDescriptor { name: Cow::Borrowed(name), methods: Cow::Borrowed(methods) }
    }

    /// A descriptor with owned parts.
    pub fn new<S: IntoText>(name: S, methods: Vec<MethodDescriptor>) -> (r: Self)
        ensures
            r.name is Owned,
            r.methods is Owned,
            r.name@ == name.text(),
            r.spec_methods() == method_views(methods@),
    {
        ServiceDescriptor { name: Cow::Owned(name.into_text()), methods: Cow::Owned(methods) }
    }
}

impl Clone for ServiceDescriptor {
    fn clone(&self) -> (r: Self)
        ensures
            r.name@ == self.name@,
            r.spec_methods() == self.spec_methods(),
            r.name is Borrowed <==> self.name is Borrowed,
            r.methods is Borrowed <==> self.methods is Borrowed,
    {
        let name = clone_text(&self.name);
        match &self.methods {
            Cow::Borrowed(s) => ServiceDescriptor { name, methods: Cow::Borrowed(*s) },
            Cow::Owned(v) => {
                let mut methods: Vec<MethodDescriptor> = Vec::new();
                let mut i: usize = 0;
                while i < v.len()
                    invariant
                        i <= v@.len(),
                        methods@.len() == i,
                        forall|j: int| 0 <= j < i ==> (#[trigger] methods@[j])@ == v@[j]@,
                    decreases v@.len() - i,
                {
                    methods.push(v[i].clone());
                    i += 1;
                }
                assert(method_views(methods@) =~= method_views(v@));
                ServiceDescriptor { name, methods: Cow::Owned(methods) }
            },
        }
    }
}


/// A list of descriptors speaks of its methods one by one, in order.
pub proof fn law_methods_are_described(methods: Seq<MethodDescriptor>, i: int)
    requires
        0 <= i < methods.len(),
    ensures
        method_views(methods).len() == methods.len(),
        method_views(methods)[i].full_path == methods[i].full_path@,
        method_views(methods)[i].method_type == methods[i].method_type,
{
}

} // verus!
