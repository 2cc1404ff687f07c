use vstd::prelude::*;
use crate::ctx::ParseContext;
use crate::definitions::{Listeners, ProxyConfig};
use crate::diagnostic::Diagnostic;

verus! {

/// A parser of one section schema: a context in, a value or an error out.
pub trait SectionParser<T> {
    /// What the parser needs of its own configuration before it runs.
    spec fn ready(&self) -> bool;

    /// Whether `r` is an outcome that the parser may give for `ctx`.
    spec fn reads(&self, ctx: ParseContext, r: Result<T, Diagnostic>) -> bool;

    fn parse_node(&self, ctx: ParseContext<'_>) -> (r: Result<T, Diagnostic>)
        requires
            self.ready(),
        ensures
            self.reads(ctx, r),
    ;
}

/// A service section: listeners and connectors read from the same context,
/// under the service's name.
pub struct ServiceSection<'a, LP, CP> {
    pub listeners: &'a LP,
    pub connectors: &'a CP,
    pub name: &'a str,
}

impl<'a, LP, CP> ServiceSection<'a, LP, CP> {
    pub fn new(listeners: &'a LP, connectors: &'a CP, name: &'a str) -> (r: Self)
        ensures
            r.listeners == listeners,
            r.connectors == connectors,
            r.name == name,
    {
        ServiceSection { listeners, connectors, name }
    }

    /// Puts a service together from what its two parsers returned: the
    /// listeners' error first, then the connectors' error, each unchanged.
    pub fn assemble<C>(&self, listeners: Result<Listeners, Diagnostic>, connectors: Result<C, Diagnostic>) -> (r:
        Result<ProxyConfig<C>, Diagnostic>)
        ensures
            match (listeners, connectors) {
                (Ok(l), Ok(c)) => r matches Ok(p) && p.name@ == self.name@ && p.listeners == l
                    && p.connectors == c,
                (Err(d), _) => r == Err::<ProxyConfig<C>, Diagnostic>(d),
                (Ok(_), Err(d)) => r == Err::<ProxyConfig<C>, Diagnostic>(d),
            },
    {
        match listeners {
            Err(d) => Err(d),
            Ok(l) => match connectors {
                Err(d) => Err(d),
                Ok(c) => Ok(ProxyConfig { name: String::from_str(self.name), listeners: l, connectors: c }),
            },
        }
    }

    /// Reads the listeners, then, if they read, the connectors, from the same
    /// context, and puts the service together with `assemble`.
    pub fn parse_node<C>(&self, ctx: ParseContext<'_>) -> (r: Result<ProxyConfig<C>, Diagnostic>) where
        LP: SectionParser<Listeners>,
        CP: SectionParser<C>,

        requires
            self.listeners.ready(),
            self.connectors.ready(),
        ensures
            match r {
                Ok(p) => p.name@ == self.name@ && self.listeners.reads(ctx, Ok(p.listeners))
                    && self.connectors.reads(ctx, Ok(p.connectors)),
                Err(d) => self.listeners.reads(ctx, Err(d)) || exists|l: Listeners|
                    self.listeners.reads(ctx, Ok(l)) && #[trigger] self.connectors.reads(
                        ctx,
                        Err::<C, Diagnostic>(d),
                    ),
            },
    {
        let listeners = match self.listeners.parse_node(ctx) {
            Ok(l) => l,
            Err(d) => {
                return Err(d);
            },
        };
        let connectors = self.connectors.parse_node(ctx);
        self.assemble(Ok(listeners), connectors)
    }
}

} // verus!
