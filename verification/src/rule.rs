//! The compiled form of one filter line: its pattern, its flags and its
//! targets. A rule is immutable once parsed.

use vstd::prelude::*;

verus! {

/// The kind of resource a request is loading, as far as the caller knows.
#[derive(Clone, Copy, PartialEq, Eq, Structural, Debug)]
pub enum ResourceType {
    Script,
    Image,
    Stylesheet,
    Other,
    Unknown,
}

/// Which resource types a rule is restricted to. A mask with every flag set
/// places no restriction at all.
#[derive(Clone, Copy, PartialEq, Eq, Structural, Debug)]
pub struct ResourceMask {
    pub script: bool,
    pub image: bool,
    pub stylesheet: bool,
    pub other: bool,
}

impl ResourceMask {
    /// True when the mask places no restriction on resource types.
    pub open spec fn spec_is_unrestricted(self) -> bool {
        self.script && self.image && self.stylesheet && self.other
    }

    /// A request of type `rt` satisfies the mask: an unrestricted mask admits
    /// everything; a restricted one admits only the named types, and never a
    /// request whose type is unknown.
    pub open spec fn spec_allows(self, rt: ResourceType) -> bool {
        match rt {
            ResourceType::Script => self.script,
            ResourceType::Image => self.image,
            ResourceType::Stylesheet => self.stylesheet,
            ResourceType::Other => self.other,
            ResourceType::Unknown => self.spec_is_unrestricted(),
        }
    }

    /// The mask that admits every resource type.
    pub fn unrestricted() -> (r: ResourceMask)
        ensures
            r.spec_is_unrestricted(),
            forall|rt: ResourceType| r.spec_allows(rt),
    {
        ResourceMask { script: true, image: true, stylesheet: true, other: true }
    }

    /// The mask that admits no resource type until flags are set.
    pub fn empty() -> (r: ResourceMask)
        ensures
            r == (ResourceMask { script: false, image: false, stylesheet: false, other: false }),
    {
        ResourceMask { script: false, image: false, stylesheet: false, other: false }
    }

    /// Whether a request of type `rt` satisfies this mask.
    pub fn allows(&self, rt: ResourceType) -> (r: bool)
        ensures
            r == self.spec_allows(rt),
    {
        match rt {
            ResourceType::Script => self.script,
            ResourceType::Image => self.image,
            ResourceType::Stylesheet => self.stylesheet,
            ResourceType::Other => self.other,
            ResourceType::Unknown => self.script && self.image && self.stylesheet && self.other,
        }
    }
}

/// The match expression of a rule.
pub enum Pattern {
    /// Plain text that must occur somewhere in the request URL.
    Substring { text: Vec<u8> },
    /// A `||domain^`-style anchor: the request host must be the domain itself
    /// or one of its subdomains. A nonempty `path` narrows it further to
    /// URLs that continue from the domain with that path.
    DomainAnchor { domain: Vec<u8>, path: Vec<u8> },
    /// A `*`-wildcard pattern: its literal parts must occur in the URL in
    /// order, without overlapping.
    Wildcard { parts: Vec<Vec<u8>> },
    /// Syntax this engine records but never matches against network requests
    /// (cosmetic filters, unknown option flags).
    Unsupported,
}

/// The mathematical shape of a `Pattern`.
pub enum SpecPattern {
    Substring(Seq<u8>),
    DomainAnchor(Seq<u8>, Seq<u8>),
    Wildcard(Seq<Seq<u8>>),
    Unsupported,
}

impl View for Pattern {
    type V = SpecPattern;

    open spec fn view(&self) -> SpecPattern {
        match self {
            Pattern::Substring { text } => SpecPattern::Substring(text@),
            Pattern::DomainAnchor { domain, path } => SpecPattern::DomainAnchor(domain@, path@),
            Pattern::Wildcard { parts } => SpecPattern::Wildcard(parts.deep_view()),
            Pattern::Unsupported => SpecPattern::Unsupported,
        }
    }
}

/// The view of an optional byte string.
pub open spec fn view_opt_bytes(o: Option<Vec<u8>>) -> Option<Seq<u8>> {
    match o {
        Some(v) => Some(v@),
        None => None,
    }
}

/// One compiled filter rule. Immutable once parsed.
pub struct FilterRule {
    /// What the rule matches.
    pub pattern: Pattern,
    /// An exception rule un-blocks a matching block rule.
    pub is_exception: bool,
    /// An important rule cannot be overridden by exceptions.
    pub important: bool,
    /// Which resource types the rule applies to.
    pub mask: ResourceMask,
    /// If nonempty, the initiating domain must fall under one of these.
    pub include_domains: Vec<Vec<u8>>,
    /// The initiating domain must fall under none of these.
    pub exclude_domains: Vec<Vec<u8>>,
    /// Substitute resource to load instead of a blocked one.
    pub redirect_target: Option<Vec<u8>>,
    /// Replacement URL for a matched request.
    pub rewrite_target: Option<Vec<u8>>,
    /// The raw source line, retained when the set was built in debug mode.
    pub source: Option<Vec<u8>>,
}

/// The mathematical shape of a `FilterRule`.
pub struct SpecRule {
    pub pattern: SpecPattern,
    pub is_exception: bool,
    pub important: bool,
    pub mask: ResourceMask,
    pub include_domains: Seq<Seq<u8>>,
    pub exclude_domains: Seq<Seq<u8>>,
    pub redirect_target: Option<Seq<u8>>,
    pub rewrite_target: Option<Seq<u8>>,
    pub source: Option<Seq<u8>>,
}

impl DeepView for FilterRule {
    type V = SpecRule;

    open spec fn deep_view(&self) -> SpecRule {
        self@
    }
}

impl View for FilterRule {
    type V = SpecRule;

    open spec fn view(&self) -> SpecRule {
        SpecRule {
            pattern: self.pattern@,
            is_exception: self.is_exception,
            important: self.important,
            mask: self.mask,
            include_domains: self.include_domains.deep_view(),
            exclude_domains: self.exclude_domains.deep_view(),
            redirect_target: view_opt_bytes(self.redirect_target),
            rewrite_target: view_opt_bytes(self.rewrite_target),
            source: view_opt_bytes(self.source),
        }
    }
}

} // verus!
