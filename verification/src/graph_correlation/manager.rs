//! Graph builders behind one interface, and the manager that keeps one
//! builder per kind of graph.

use super::builders::{
    built_from, default_call_ops, plain_call_ops, plain_dependency_ops, CallGraphBuilder, DefaultGraphBuilder,
    DependencyGraphBuilder, GraphSourceData,
};
use super::correlation_graph::CorrelationGraph;
use super::GraphType;
use crate::error::Error;
use vstd::prelude::*;

verus! {

/// A builder of correlation graphs of one kind.
pub trait GraphBuilder {
    /// The kind of graph `build` makes.
    spec fn kind(&self) -> GraphType;

    /// Whether `r` is what `build` gives for `data`.
    spec fn builds(&self, data: GraphSourceData, r: Result<CorrelationGraph, Error>) -> bool;

    /// Build a correlation graph from source data.
    fn build(&self, source_data: &GraphSourceData) -> (r: Result<CorrelationGraph, Error>)
        ensures
            self.builds(*source_data, r),
    ;

    /// The kind of graph `build` makes.
    fn graph_type(&self) -> (t: GraphType)
        ensures
            t == self.kind(),
    ;

    /// The builder's name, as text.
    spec fn name_text(&self) -> Seq<char>;

    /// The builder's name.
    fn name(&self) -> (s: &str)
        ensures
            s@ == self.name_text(),
    ;
}

impl GraphBuilder for CallGraphBuilder {
    open spec fn kind(&self) -> GraphType {
        GraphType::Call
    }

    open spec fn name_text(&self) -> Seq<char> {
        self.name_view()
    }

    open spec fn builds(&self, data: GraphSourceData, r: Result<CorrelationGraph, Error>) -> bool {
        built_from(r, GraphType::Call, self.name_view(), plain_call_ops(data))
    }

    fn build(&self, source_data: &GraphSourceData) -> (r: Result<CorrelationGraph, Error>) {
        CallGraphBuilder::build(self, source_data)
    }

    fn graph_type(&self) -> (t: GraphType) {
        CallGraphBuilder::graph_type(self)
    }

    fn name(&self) -> &str {
        CallGraphBuilder::name(self)
    }
}

impl GraphBuilder for DependencyGraphBuilder {
    open spec fn kind(&self) -> GraphType {
        GraphType::Dependency
    }

    open spec fn name_text(&self) -> Seq<char> {
        self.name_view()
    }

    open spec fn builds(&self, data: GraphSourceData, r: Result<CorrelationGraph, Error>) -> bool {
        built_from(r, GraphType::Dependency, self.name_view(), plain_dependency_ops(data))
    }

    fn build(&self, source_data: &GraphSourceData) -> (r: Result<CorrelationGraph, Error>) {
        DependencyGraphBuilder::build(self, source_data)
    }

    fn graph_type(&self) -> (t: GraphType) {
        DependencyGraphBuilder::graph_type(self)
    }

    fn name(&self) -> &str {
        DependencyGraphBuilder::name(self)
    }
}

impl GraphBuilder for DefaultGraphBuilder {
    open spec fn kind(&self) -> GraphType {
        GraphType::Call
    }

    open spec fn name_text(&self) -> Seq<char> {
        self.name_view()
    }

    open spec fn builds(&self, data: GraphSourceData, r: Result<CorrelationGraph, Error>) -> bool {
        built_from(r, GraphType::Call, self.name_view() + " - Call Graph"@, default_call_ops(self.config_view(), data))
    }

    fn build(&self, source_data: &GraphSourceData) -> (r: Result<CorrelationGraph, Error>) {
        DefaultGraphBuilder::build(self, source_data)
    }

    fn graph_type(&self) -> (t: GraphType) {
        DefaultGraphBuilder::graph_type(self)
    }

    fn name(&self) -> &str {
        DefaultGraphBuilder::name(self)
    }
}

/// The `Debug` name of a graph type.
pub open spec fn graph_type_name(t: GraphType) -> Seq<char> {
    match t {
        GraphType::Call => "Call"@,
        GraphType::Dependency => "Dependency"@,
        GraphType::DataFlow => "DataFlow"@,
        GraphType::Component => "Component"@,
    }
}

fn graph_type_text(t: GraphType) -> (s: &'static str)
    ensures
        s@ == graph_type_name(t),
{
    match t {
        GraphType::Call => "Call",
        GraphType::Dependency => "Dependency",
        GraphType::DataFlow => "DataFlow",
        GraphType::Component => "Component",
    }
}

/// A builder that a manager holds: one of the library's builders.
pub enum ManagedBuilder {
    Call(CallGraphBuilder),
    Dependency(DependencyGraphBuilder),
    Default(DefaultGraphBuilder),
}

impl GraphBuilder for ManagedBuilder {
    open spec fn kind(&self) -> GraphType {
        match self {
            ManagedBuilder::Call(b) => b.kind(),
            ManagedBuilder::Dependency(b) => b.kind(),
            ManagedBuilder::Default(b) => b.kind(),
        }
    }

    open spec fn name_text(&self) -> Seq<char> {
        match self {
            ManagedBuilder::Call(b) => b.name_view(),
            ManagedBuilder::Dependency(b) => b.name_view(),
            ManagedBuilder::Default(b) => b.name_view(),
        }
    }

    open spec fn builds(&self, data: GraphSourceData, r: Result<CorrelationGraph, Error>) -> bool {
        match self {
            ManagedBuilder::Call(b) => b.builds(data, r),
            ManagedBuilder::Dependency(b) => b.builds(data, r),
            ManagedBuilder::Default(b) => b.builds(data, r),
        }
    }

    fn build(&self, source_data: &GraphSourceData) -> (r: Result<CorrelationGraph, Error>) {
        match self {
            ManagedBuilder::Call(b) => CallGraphBuilder::build(b, source_data),
            ManagedBuilder::Dependency(b) => DependencyGraphBuilder::build(b, source_data),
            ManagedBuilder::Default(b) => DefaultGraphBuilder::build(b, source_data),
        }
    }

    fn graph_type(&self) -> (t: GraphType) {
        match self {
            ManagedBuilder::Call(b) => CallGraphBuilder::graph_type(b),
            ManagedBuilder::Dependency(b) => DependencyGraphBuilder::graph_type(b),
            ManagedBuilder::Default(b) => DefaultGraphBuilder::graph_type(b),
        }
    }

    fn name(&self) -> &str {
        match self {
            ManagedBuilder::Call(b) => CallGraphBuilder::name(b),
            ManagedBuilder::Dependency(b) => DependencyGraphBuilder::name(b),
            ManagedBuilder::Default(b) => DefaultGraphBuilder::name(b),
        }
    }
}

/// Keeps one builder per kind of graph and builds graphs with them.
pub struct GraphCorrelationManager {
    call: Option<ManagedBuilder>,
    dependency: Option<ManagedBuilder>,
    data_flow: Option<ManagedBuilder>,
    component: Option<ManagedBuilder>,
    default_builder: Option<DefaultGraphBuilder>,
}

/// The kind `t` when a builder is present, as a one-item list.
pub open spec fn kind_if_present(t: GraphType, b: Option<ManagedBuilder>) -> Seq<GraphType> {
    if b is Some {
        seq![t]
    } else {
        Seq::empty()
    }
}

impl GraphCorrelationManager {
    /// The builder registered for `t`, if any.
    pub closed spec fn slot(&self, t: GraphType) -> Option<ManagedBuilder> {
        match t {
            GraphType::Call => self.call,
            GraphType::Dependency => self.dependency,
            GraphType::DataFlow => self.data_flow,
            GraphType::Component => self.component,
        }
    }

    /// The kinds with a builder, in the order call, dependency, data flow,
    /// component.
    pub open spec fn kinds(&self) -> Seq<GraphType> {
        kind_if_present(GraphType::Call, self.slot(GraphType::Call)) + kind_if_present(
            GraphType::Dependency,
            self.slot(GraphType::Dependency),
        ) + kind_if_present(GraphType::DataFlow, self.slot(GraphType::DataFlow)) + kind_if_present(
            GraphType::Component,
            self.slot(GraphType::Component),
        )
    }

    /// Each registered builder makes the kind it is registered for.
    pub open spec fn wf(&self) -> bool {
        forall|t: GraphType| #[trigger] self.slot(t) matches Some(b) ==> b.kind() == t
    }

    /// A manager with the call graph builder "Call Graph" and the dependency
    /// graph builder "Dependency Graph".
    pub fn new() -> (m: Self)
        ensures
            m.wf(),
            m.slot(GraphType::Call) is Some,
            m.slot(GraphType::Dependency) is Some,
            m.slot(GraphType::DataFlow) is None,
            m.slot(GraphType::Component) is None,
            m.kinds() == seq![GraphType::Call, GraphType::Dependency],
    {
        let mut manager = GraphCorrelationManager {
            call: None,
            dependency: None,
            data_flow: None,
            component: None,
            default_builder: None,
        };
        manager.register_builder(ManagedBuilder::Call(CallGraphBuilder::new(String::from_str("Call Graph"))));
        manager.register_builder(
            ManagedBuilder::Dependency(DependencyGraphBuilder::new(String::from_str("Dependency Graph"))),
        );
        proof {
            assert(manager.kinds() =~= seq![GraphType::Call, GraphType::Dependency]);
        }
        manager
    }

    /// Register a graph builder; it replaces the builder of its kind, if any.
    pub fn register_builder(&mut self, builder: ManagedBuilder)
        requires
            old(self).wf(),
        ensures
            final(self).wf(),
            final(self).slot(builder.kind()) == Some(builder),
            forall|t: GraphType| t != builder.kind() ==> #[trigger] final(self).slot(t) == old(self).slot(t),
    {
        let t = builder.graph_type();
        match t {
            GraphType::Call => {
                self.call = Some(builder);
            },
            GraphType::Dependency => {
                self.dependency = Some(builder);
            },
            GraphType::DataFlow => {
                self.data_flow = Some(builder);
            },
            GraphType::Component => {
                self.component = Some(builder);
            },
        }
        proof {
            assert forall|u: GraphType| #[trigger] self.slot(u) is Some implies self.slot(u)->0.kind() == u by {
                if u != t {
                    assert(self.slot(u) == old(self).slot(u));
                }
            }
        }
    }

    /// Build a graph of the given kind with its builder; refused when no
    /// builder makes that kind.
    pub fn build_graph(&self, graph_type: GraphType, source_data: &GraphSourceData) -> (r: Result<CorrelationGraph, Error>)
        ensures
            self.slot(graph_type) matches Some(b) ==> b.builds(*source_data, r),
            self.slot(graph_type) is None ==> (r matches Err(Error::GraphCorrelation(m)) && m@
                == "No builder found for graph type: "@ + graph_type_name(graph_type)),
    {
        let slot = match graph_type {
            GraphType::Call => &self.call,
            GraphType::Dependency => &self.dependency,
            GraphType::DataFlow => &self.data_flow,
            GraphType::Component => &self.component,
        };
        match slot {
            Some(builder) => builder.build(source_data),
            None => Err(
                Error::GraphCorrelation(String::from_str("No builder found for graph type: ").concat(graph_type_text(graph_type))),
            ),
        }
    }

    /// The kinds with a builder.
    pub fn available_graph_types(&self) -> (r: Vec<GraphType>)
        ensures
            r@ == self.kinds(),
    {
        let mut out: Vec<GraphType> = Vec::new();
        if self.call.is_some() {
            out.push(GraphType::Call);
        }
        if self.dependency.is_some() {
            out.push(GraphType::Dependency);
        }
        if self.data_flow.is_some() {
            out.push(GraphType::DataFlow);
        }
        if self.component.is_some() {
            out.push(GraphType::Component);
        }
        proof {
            assert(out@ =~= self.kinds());
        }
        out
    }
}

impl Default for GraphCorrelationManager {
    fn default() -> (m: Self)
        ensures
            m.wf(),
            m.kinds() == seq![GraphType::Call, GraphType::Dependency],
    {
        Self::new()
    }
}

} // verus!
