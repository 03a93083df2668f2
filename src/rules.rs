//! The rule engine: textual rules, their patterns, and the decision they give a
//! destination.
use vstd::prelude::*;
use vstd::utf8::{decode_utf8, valid_utf8};

use regex::Regex;

use crate::cidr::{prefix_agrees, prefix_match};
use crate::codec::{copy_range, utf8_string};
use crate::dst::{DstAddr, DstView};
use crate::error::ParseError;
use crate::ip::{ip_text, lemma_ip_round_trip, parse_ip, parse_ip_text, valid_ip, IpAddr, IpView};
use crate::text::{
    all_digits, decimal, decimal_value, lemma_decimal, has_byte, lower, eq_ignore_ascii_case, eq_ignore_case, join, parse_decimal,
    split, split_bytes, views, write_decimal, write_joined,
};

verus! {

#[verifier::external_type_specification]
#[verifier::external_body]
pub struct ExRegex(regex::Regex);

/// What `Regex::new` gives for a source text: the compiled expression, or nothing
/// when the text is not a valid expression.
pub uninterp spec fn regex_of(source: Seq<char>) -> Option<Regex>;

/// Whether a compiled expression matches somewhere in a haystack.
pub uninterp spec fn regex_finds(re: Regex, haystack: Seq<char>) -> bool;

/// Relies on `regex::Regex::new`: whether the text compiles, and to what, depends
/// on the text alone.
#[verifier::external_body]
fn compile_regex(source: &str) -> (r: Option<Regex>)
    ensures
        r == regex_of(source@),
{
    Regex::new(source).ok()
}

/// Relies on `regex::Regex::is_match`: an unanchored search of the haystack.
#[verifier::external_body]
fn regex_is_match(re: &Regex, haystack: &str) -> (r: bool)
    ensures
        r == regex_finds(*re, haystack@),
{
    re.is_match(haystack)
}

/// The result of enforcing a policy on a destination.
#[derive(Debug, Clone, Copy, PartialEq, Eq, Structural)]
pub enum Decision {
    /// Connect to the destination directly.
    Direct,
    /// Connect through the upstream proxy; `remote_dns` asks the proxy to resolve names.
    Proxy { remote_dns: bool },
    /// No opinion: the ambient policy decides.
    Default,
    /// Refuse the connection.
    Deny,
}

impl Decision {
    /// Whether this is the `Default` decision.
    pub fn is_default(&self) -> (r: bool)
        ensures
            r == (*self == Decision::Default),
    {
        match self {
            Decision::Default => true,
            _ => false,
        }
    }
}

/// The extra comma-separated fields that follow a rule's decision.
#[derive(Debug, Clone)]
pub struct Args(pub Vec<Vec<u8>>);

/// What a rule compares a destination with.
#[derive(Debug)]
pub enum Pattern {
    /// The domain equals this text.
    DomainExact(Vec<u8>),
    /// The domain ends with this text.
    DomainSuffix(Vec<u8>),
    /// The domain contains this text.
    DomainKeyword(Vec<u8>),
    /// The expression compiled from this source text matches the domain.
    DomainRegex(Vec<u8>, Regex),
    /// The socket address has exactly this IP.
    IpExact(IpAddr),
    /// The socket address lies in this network, given by an address and a prefix length.
    IpCidr(IpAddr, u8),
}

/// The mathematical value of a pattern.
pub enum PatternView {
    DomainExact(Seq<u8>),
    DomainSuffix(Seq<u8>),
    DomainKeyword(Seq<u8>),
    DomainRegex(Seq<u8>, Regex),
    IpExact(IpView),
    IpCidr(IpView, nat),
}

impl View for Pattern {
    type V = PatternView;

    open spec fn view(&self) -> PatternView {
        match self {
            Pattern::DomainExact(s) => PatternView::DomainExact(s@),
            Pattern::DomainSuffix(s) => PatternView::DomainSuffix(s@),
            Pattern::DomainKeyword(s) => PatternView::DomainKeyword(s@),
            Pattern::DomainRegex(s, re) => PatternView::DomainRegex(s@, *re),
            Pattern::IpExact(ip) => PatternView::IpExact(ip@),
            Pattern::IpCidr(ip, p) => PatternView::IpCidr(ip@, *p as nat),
        }
    }
}

/// A rule: a pattern, the decision it gives on a match, and its extra fields.
#[derive(Debug)]
pub struct Rule {
    pub pattern: Pattern,
    pub decision: Decision,
    pub args: Option<Args>,
}

/// The mathematical value of a rule.
pub struct RuleView {
    pub pattern: PatternView,
    pub decision: Decision,
    pub args: Option<Seq<Seq<u8>>>,
}

impl View for Rule {
    type V = RuleView;

    open spec fn view(&self) -> RuleView {
        RuleView {
            pattern: self.pattern@,
            decision: self.decision,
            args: match &self.args {
                Some(a) => Some(views(a.0@)),
                None => None,
            },
        }
    }
}

/// Whether `d` ends with `p`.
pub open spec fn ends_with(d: Seq<u8>, p: Seq<u8>) -> bool {
    p.len() <= d.len() && d.subrange(d.len() - p.len(), d.len() as int) == p
}

/// Whether `p` occurs in `d`.
pub open spec fn contains(d: Seq<u8>, p: Seq<u8>) -> bool {
    exists|i: int| 0 <= i && i + p.len() <= d.len() && #[trigger] d.subrange(i, i + p.len()) == p
}

/// Whether a pattern matches a destination. Domain patterns only match domain
/// names, IP patterns only socket addresses of the same family. A prefix longer
/// than the address compares the whole address.
pub open spec fn pattern_matches(p: PatternView, d: DstView) -> bool {
    match (p, d) {
        (PatternView::DomainExact(s), DstView::Domain(n, _)) => n == s,
        (PatternView::DomainSuffix(s), DstView::Domain(n, _)) => ends_with(n, s),
        (PatternView::DomainKeyword(s), DstView::Domain(n, _)) => contains(n, s),
        (PatternView::DomainRegex(_, re), DstView::Domain(n, _)) => valid_utf8(n) && regex_finds(
            re,
            decode_utf8(n),
        ),
        (PatternView::IpExact(IpView::V4(a)), DstView::Ipv4(b, _)) => a == b,
        (PatternView::IpExact(IpView::V6(a)), DstView::Ipv6(b, _)) => a == b,
        (PatternView::IpCidr(IpView::V4(a), k), DstView::Ipv4(b, _)) => prefix_agrees(
            b,
            a,
            if k <= 32 { k as int } else { 32 },
        ),
        (PatternView::IpCidr(IpView::V6(a), k), DstView::Ipv6(b, _)) => prefix_agrees(
            b,
            a,
            if k <= 128 { k as int } else { 128 },
        ),
        _ => false,
    }
}

/// A pattern whose parts are well formed: addresses of their family's length and
/// prefixes within the address.
pub open spec fn valid_pattern(p: PatternView) -> bool {
    match p {
        PatternView::IpExact(IpView::V4(a)) => a.len() == 4,
        PatternView::IpExact(IpView::V6(a)) => a.len() == 16,
        PatternView::IpCidr(IpView::V4(a), k) => a.len() == 4 && k <= 32,
        PatternView::IpCidr(IpView::V6(a), k) => a.len() == 16 && k <= 128,
        _ => true,
    }
}

/// Whether `n` ends with `p`.
fn ends_with_bytes(n: &[u8], p: &[u8]) -> (r: bool)
    ensures
        r == ends_with(n@, p@),
{
    if p.len() > n.len() {
        return false;
    }
    let off = n.len() - p.len();
    let mut i: usize = 0;
    while i < p.len()
        invariant
            off + p@.len() == n@.len(),
            n@.len() <= usize::MAX,
            i <= p@.len(),
            forall|k: int| 0 <= k < i ==> n@[off + k] == p@[k],
        decreases p@.len() - i,
    {
        if n[off + i] != p[i] {
            assert(n@.subrange(off as int, n@.len() as int)[i as int] != p@[i as int]);
            return false;
        }
        i = i + 1;
    }
    assert(n@.subrange(off as int, n@.len() as int) =~= p@);
    true
}

/// Whether `p` occurs in `n` at `at`.
fn occurs_at(n: &[u8], p: &[u8], at: usize) -> (r: bool)
    requires
        at + p@.len() <= n@.len(),
    ensures
        r == (n@.subrange(at as int, at + p@.len()) == p@),
{
    let _len = n.len();
    let mut i: usize = 0;
    while i < p.len()
        invariant
            at + p@.len() <= n@.len(),
            n@.len() <= usize::MAX,
            i <= p@.len(),
            forall|k: int| 0 <= k < i ==> n@[at + k] == p@[k],
        decreases p@.len() - i,
    {
        if n[at + i] != p[i] {
            assert(n@.subrange(at as int, at + p@.len())[i as int] != p@[i as int]);
            return false;
        }
        i = i + 1;
    }
    assert(n@.subrange(at as int, at + p@.len()) =~= p@);
    true
}

/// Whether `p` occurs anywhere in `n`.
fn contains_bytes(n: &[u8], p: &[u8]) -> (r: bool)
    ensures
        r == contains(n@, p@),
{
    if p.len() > n.len() {
        return false;
    }
    let last = n.len() - p.len();
    let mut at: usize = 0;
    loop
        invariant
            p@.len() <= n@.len(),
            last == n@.len() - p@.len(),
            at <= last,
            forall|i: int| 0 <= i < at ==> #[trigger] n@.subrange(i, i + p@.len()) != p@,
        decreases last - at,
    {
        if occurs_at(n, p, at) {
            return true;
        }
        if at == last {
            assert forall|i: int| 0 <= i && i + p@.len() <= n@.len() implies #[trigger] n@.subrange(
                i,
                i + p@.len(),
            ) != p@ by {
                assert(i <= at);
            }
            return false;
        }
        at = at + 1;
    }
}

impl Pattern {
    /// Whether this pattern matches the destination.
    pub fn is_match(&self, dst: &DstAddr) -> (r: bool)
        ensures
            r == pattern_matches(self@, dst@),
    {
        match (self, dst) {
            (Pattern::DomainExact(s), DstAddr::Domain(n, _)) => crate::text::bytes_eq(
                n.as_slice(),
                s.as_slice(),
            ),
            (Pattern::DomainSuffix(s), DstAddr::Domain(n, _)) => ends_with_bytes(
                n.as_slice(),
                s.as_slice(),
            ),
            (Pattern::DomainKeyword(s), DstAddr::Domain(n, _)) => contains_bytes(
                n.as_slice(),
                s.as_slice(),
            ),
            (Pattern::DomainRegex(_, re), DstAddr::Domain(n, _)) => match utf8_string(n.as_slice()) {
                Some(text) => regex_is_match(re, text.as_str()),
                None => false,
            },
            (Pattern::IpExact(IpAddr::V4(a)), DstAddr::Ipv4(b, _)) => crate::text::bytes_eq(
                a.as_slice(),
                b.as_slice(),
            ),
            (Pattern::IpExact(IpAddr::V6(a)), DstAddr::Ipv6(b, _)) => crate::text::bytes_eq(
                a.as_slice(),
                b.as_slice(),
            ),
            (Pattern::IpCidr(IpAddr::V4(a), k), DstAddr::Ipv4(b, _)) => prefix_match(
                b.as_slice(),
                a.as_slice(),
                if *k <= 32 { *k as usize } else { 32 },
            ),
            (Pattern::IpCidr(IpAddr::V6(a), k), DstAddr::Ipv6(b, _)) => prefix_match(
                b.as_slice(),
                a.as_slice(),
                if *k <= 128 { *k as usize } else { 128 },
            ),
            _ => false,
        }
    }
}

/// `DOMAIN`
pub open spec fn tag_domain() -> Seq<u8> {
    seq![68u8, 79, 77, 65, 73, 78]
}

/// `DOMAIN-SUFFIX`
pub open spec fn tag_domain_suffix() -> Seq<u8> {
    seq![68u8, 79, 77, 65, 73, 78, 45, 83, 85, 70, 70, 73, 88]
}

/// `DOMAIN-REGEX`
pub open spec fn tag_domain_regex() -> Seq<u8> {
    seq![68u8, 79, 77, 65, 73, 78, 45, 82, 69, 71, 69, 88]
}

/// `DOMAIN-KEYWORD`
pub open spec fn tag_domain_keyword() -> Seq<u8> {
    seq![68u8, 79, 77, 65, 73, 78, 45, 75, 69, 89, 87, 79, 82, 68]
}

/// `IPV4`
pub open spec fn tag_ipv4() -> Seq<u8> {
    seq![73u8, 80, 86, 52]
}

/// `IPV6`
pub open spec fn tag_ipv6() -> Seq<u8> {
    seq![73u8, 80, 86, 54]
}

/// `IP-CIDR`
pub open spec fn tag_ip_cidr() -> Seq<u8> {
    seq![73u8, 80, 45, 67, 73, 68, 82]
}

/// `IP-CIDR6`
pub open spec fn tag_ip_cidr6() -> Seq<u8> {
    seq![73u8, 80, 45, 67, 73, 68, 82, 54]
}

/// `direct`
pub open spec fn word_direct() -> Seq<u8> {
    seq![100u8, 105, 114, 101, 99, 116]
}

/// `proxy`
pub open spec fn word_proxy() -> Seq<u8> {
    seq![112u8, 114, 111, 120, 121]
}

/// `default`
pub open spec fn word_default() -> Seq<u8> {
    seq![100u8, 101, 102, 97, 117, 108, 116]
}

/// `deny`
pub open spec fn word_deny() -> Seq<u8> {
    seq![100u8, 101, 110, 121]
}

/// `force-remote-dns`
pub open spec fn word_force_remote_dns() -> Seq<u8> {
    seq![102u8, 111, 114, 99, 101, 45, 114, 101, 109, 111, 116, 101, 45, 100, 110,
        115,
    ]
}

/// The longest prefix an address of this family can take.
pub open spec fn max_prefix(ip: IpView) -> nat {
    match ip {
        IpView::V4(_) => 32,
        IpView::V6(_) => 128,
    }
}

/// Whether a field spells a prefix length of at most `max`.
pub open spec fn is_prefix_text(f: Seq<u8>, max: nat) -> bool {
    1 <= f.len() && all_digits(f) && decimal_value(f) <= max
}

/// The pattern that a tag and a pattern field describe.
pub open spec fn parse_pattern(tag: Seq<u8>, pat: Seq<u8>) -> Result<PatternView, ParseError> {
    if eq_ignore_case(tag, tag_domain()) {
        Ok(PatternView::DomainExact(pat))
    } else if eq_ignore_case(tag, tag_domain_suffix()) {
        Ok(PatternView::DomainSuffix(pat))
    } else if eq_ignore_case(tag, tag_domain_regex()) {
        if valid_utf8(pat) && regex_of(decode_utf8(pat)) is Some {
            Ok(PatternView::DomainRegex(pat, regex_of(decode_utf8(pat))->Some_0))
        } else {
            Err(ParseError::InvalidRegex)
        }
    } else if eq_ignore_case(tag, tag_domain_keyword()) {
        Ok(PatternView::DomainKeyword(pat))
    } else if eq_ignore_case(tag, tag_ipv4()) || eq_ignore_case(tag, tag_ipv6()) {
        match parse_ip_text(pat) {
            Some(ip) => Ok(PatternView::IpExact(ip)),
            None => Err(ParseError::InvalidAddr),
        }
    } else if eq_ignore_case(tag, tag_ip_cidr()) || eq_ignore_case(tag, tag_ip_cidr6()) {
        let parts = split(pat, 47);
        if parts.len() != 2 {
            Err(ParseError::InvalidSubnet)
        } else {
            match parse_ip_text(parts[0]) {
                None => Err(ParseError::InvalidAddr),
                Some(ip) => if is_prefix_text(parts[1], max_prefix(ip)) {
                    Ok(PatternView::IpCidr(ip, decimal_value(parts[1])))
                } else {
                    Err(ParseError::InvalidSubnet)
                },
            }
        }
    } else {
        Err(ParseError::UnknownRule)
    }
}

/// Whether one of the extra fields asks the proxy to resolve names.
pub open spec fn asks_remote_dns(args: Seq<Seq<u8>>) -> bool {
    exists|i: int| 0 <= i < args.len() && eq_ignore_case(#[trigger] args[i], word_force_remote_dns())
}

/// The decision that a decision field and the extra fields describe.
pub open spec fn parse_decision(dec: Seq<u8>, args: Seq<Seq<u8>>) -> Result<Decision, ParseError> {
    if eq_ignore_case(dec, word_direct()) {
        Ok(Decision::Direct)
    } else if eq_ignore_case(dec, word_proxy()) {
        Ok(Decision::Proxy { remote_dns: asks_remote_dns(args) })
    } else if eq_ignore_case(dec, word_default()) {
        Ok(Decision::Default)
    } else if eq_ignore_case(dec, word_deny()) {
        Ok(Decision::Deny)
    } else {
        Err(ParseError::InvalidDecision)
    }
}

/// The rule that a line `TAG,PATTERN,DECISION[,ARG]*` describes.
pub open spec fn parse_rule(line: Seq<u8>) -> Result<RuleView, ParseError> {
    let f = split(line, 44);
    if f.len() < 3 {
        Err(ParseError::InvalidRule)
    } else {
        let args = f.subrange(3, f.len() as int);
        match parse_pattern(f[0], f[1]) {
            Err(e) => Err(e),
            Ok(p) => match parse_decision(f[2], args) {
                Err(e) => Err(e),
                Ok(d) => Ok(
                    RuleView { pattern: p, decision: d, args: if f.len() > 3 { Some(args) } else { None } },
                ),
            },
        }
    }
}

/// The bytes of `DOMAIN`.
fn tag_domain_bytes() -> (r: Vec<u8>)
    ensures
        r@ == tag_domain(),
{
    let r: Vec<u8> = vec![68, 79, 77, 65, 73, 78];
    assert(r@ =~= tag_domain());
    r
}

/// The bytes of `DOMAIN-SUFFIX`.
fn tag_domain_suffix_bytes() -> (r: Vec<u8>)
    ensures
        r@ == tag_domain_suffix(),
{
    let r: Vec<u8> = vec![68, 79, 77, 65, 73, 78, 45, 83, 85, 70, 70, 73, 88];
    assert(r@ =~= tag_domain_suffix());
    r
}

/// The bytes of `DOMAIN-REGEX`.
fn tag_domain_regex_bytes() -> (r: Vec<u8>)
    ensures
        r@ == tag_domain_regex(),
{
    let r: Vec<u8> = vec![68, 79, 77, 65, 73, 78, 45, 82, 69, 71, 69, 88];
    assert(r@ =~= tag_domain_regex());
    r
}

/// The bytes of `DOMAIN-KEYWORD`.
fn tag_domain_keyword_bytes() -> (r: Vec<u8>)
    ensures
        r@ == tag_domain_keyword(),
{
    let r: Vec<u8> = vec![68, 79, 77, 65, 73, 78, 45, 75, 69, 89, 87, 79, 82, 68];
    assert(r@ =~= tag_domain_keyword());
    r
}

/// The bytes of `IPV4`.
fn tag_ipv4_bytes() -> (r: Vec<u8>)
    ensures
        r@ == tag_ipv4(),
{
    let r: Vec<u8> = vec![73, 80, 86, 52];
    assert(r@ =~= tag_ipv4());
    r
}

/// The bytes of `IPV6`.
fn tag_ipv6_bytes() -> (r: Vec<u8>)
    ensures
        r@ == tag_ipv6(),
{
    let r: Vec<u8> = vec![73, 80, 86, 54];
    assert(r@ =~= tag_ipv6());
    r
}

/// The bytes of `IP-CIDR`.
fn tag_ip_cidr_bytes() -> (r: Vec<u8>)
    ensures
        r@ == tag_ip_cidr(),
{
    let r: Vec<u8> = vec![73, 80, 45, 67, 73, 68, 82];
    assert(r@ =~= tag_ip_cidr());
    r
}

/// The bytes of `IP-CIDR6`.
fn tag_ip_cidr6_bytes() -> (r: Vec<u8>)
    ensures
        r@ == tag_ip_cidr6(),
{
    let r: Vec<u8> = vec![73, 80, 45, 67, 73, 68, 82, 54];
    assert(r@ =~= tag_ip_cidr6());
    r
}

/// The bytes of `direct`.
fn word_direct_bytes() -> (r: Vec<u8>)
    ensures
        r@ == word_direct(),
{
    let r: Vec<u8> = vec![100, 105, 114, 101, 99, 116];
    assert(r@ =~= word_direct());
    r
}

/// The bytes of `proxy`.
fn word_proxy_bytes() -> (r: Vec<u8>)
    ensures
        r@ == word_proxy(),
{
    let r: Vec<u8> = vec![112, 114, 111, 120, 121];
    assert(r@ =~= word_proxy());
    r
}

/// The bytes of `default`.
fn word_default_bytes() -> (r: Vec<u8>)
    ensures
        r@ == word_default(),
{
    let r: Vec<u8> = vec![100, 101, 102, 97, 117, 108, 116];
    assert(r@ =~= word_default());
    r
}

/// The bytes of `deny`.
fn word_deny_bytes() -> (r: Vec<u8>)
    ensures
        r@ == word_deny(),
{
    let r: Vec<u8> = vec![100, 101, 110, 121];
    assert(r@ =~= word_deny());
    r
}

/// The bytes of `force-remote-dns`.
fn word_force_remote_dns_bytes() -> (r: Vec<u8>)
    ensures
        r@ == word_force_remote_dns(),
{
    let r: Vec<u8> = vec![102, 111, 114, 99, 101, 45, 114, 101, 109, 111, 116, 101, 45, 100, 110, 115];
    assert(r@ =~= word_force_remote_dns());
    r
}

/// Copies a whole byte string.
fn copy_all(s: &[u8]) -> (r: Vec<u8>)
    ensures
        r@ == s@,
{
    let r = copy_range(s, 0, s.len());
    assert(s@.subrange(0, s@.len() as int) == s@);
    r
}

/// Reads the pattern that a tag field and a pattern field describe.
fn read_pattern(tag: &[u8], pat: &[u8]) -> (r: Result<Pattern, ParseError>)
    ensures
        match (r, parse_pattern(tag@, pat@)) {
            (Ok(p), Ok(v)) => p@ == v,
            (Err(e), Err(f)) => e == f,
            _ => false,
        },
{
    if eq_ignore_ascii_case(tag, tag_domain_bytes().as_slice()) {
        Ok(Pattern::DomainExact(copy_all(pat)))
    } else if eq_ignore_ascii_case(tag, tag_domain_suffix_bytes().as_slice()) {
        Ok(Pattern::DomainSuffix(copy_all(pat)))
    } else if eq_ignore_ascii_case(tag, tag_domain_regex_bytes().as_slice()) {
        match utf8_string(pat) {
            Some(text) => match compile_regex(text.as_str()) {
                Some(re) => Ok(Pattern::DomainRegex(copy_all(pat), re)),
                None => Err(ParseError::InvalidRegex),
            },
            None => Err(ParseError::InvalidRegex),
        }
    } else if eq_ignore_ascii_case(tag, tag_domain_keyword_bytes().as_slice()) {
        Ok(Pattern::DomainKeyword(copy_all(pat)))
    } else if eq_ignore_ascii_case(tag, tag_ipv4_bytes().as_slice()) || eq_ignore_ascii_case(
        tag,
        tag_ipv6_bytes().as_slice(),
    ) {
        match parse_ip(pat) {
            Some(ip) => Ok(Pattern::IpExact(ip)),
            None => Err(ParseError::InvalidAddr),
        }
    } else if eq_ignore_ascii_case(tag, tag_ip_cidr_bytes().as_slice()) || eq_ignore_ascii_case(
        tag,
        tag_ip_cidr6_bytes().as_slice(),
    ) {
        let parts = split_bytes(pat, 47);
        if parts.len() != 2 {
            return Err(ParseError::InvalidSubnet);
        }
        assert(views(parts@)[0] == parts@[0]@ && views(parts@)[1] == parts@[1]@);
        match parse_ip(parts[0].as_slice()) {
            None => Err(ParseError::InvalidAddr),
            Some(ip) => {
                let max: u64 = match ip {
                    IpAddr::V4(_) => 32,
                    IpAddr::V6(_) => 128,
                };
                match parse_decimal(parts[1].as_slice(), max) {
                    Some(k) => Ok(Pattern::IpCidr(ip, k as u8)),
                    None => Err(ParseError::InvalidSubnet),
                }
            },
        }
    } else {
        Err(ParseError::UnknownRule)
    }
}

/// Whether one of the extra fields is `force-remote-dns`, in any case.
fn read_remote_dns(args: &Vec<Vec<u8>>) -> (r: bool)
    ensures
        r == asks_remote_dns(views(args@)),
{
    let word = word_force_remote_dns_bytes();
    let mut i: usize = 0;
    while i < args.len()
        invariant
            i <= args@.len(),
            word@ == word_force_remote_dns(),
            forall|k: int| 0 <= k < i ==> !eq_ignore_case(#[trigger] views(args@)[k], word_force_remote_dns()),
        decreases args@.len() - i,
    {
        assert(views(args@)[i as int] == args@[i as int]@);
        if eq_ignore_ascii_case(args[i].as_slice(), word.as_slice()) {
            return true;
        }
        i = i + 1;
    }
    false
}

/// Reads the decision that a decision field and the extra fields describe.
fn read_decision(dec: &[u8], args: &Vec<Vec<u8>>) -> (r: Result<Decision, ParseError>)
    ensures
        r == parse_decision(dec@, views(args@)),
{
    if eq_ignore_ascii_case(dec, word_direct_bytes().as_slice()) {
        Ok(Decision::Direct)
    } else if eq_ignore_ascii_case(dec, word_proxy_bytes().as_slice()) {
        Ok(Decision::Proxy { remote_dns: read_remote_dns(args) })
    } else if eq_ignore_ascii_case(dec, word_default_bytes().as_slice()) {
        Ok(Decision::Default)
    } else if eq_ignore_ascii_case(dec, word_deny_bytes().as_slice()) {
        Ok(Decision::Deny)
    } else {
        Err(ParseError::InvalidDecision)
    }
}

impl Rule {
    /// Reads a rule from its text `TAG,PATTERN,DECISION[,ARG]*`. Tags and
    /// decisions are compared without regard to ASCII case.
    pub fn parse(line: &[u8]) -> (r: Result<Rule, ParseError>)
        ensures
            match (r, parse_rule(line@)) {
                (Ok(x), Ok(v)) => x@ == v,
                (Err(e), Err(f)) => e == f,
                _ => false,
            },
    {
        let fields = split_bytes(line, 44);
        if fields.len() < 3 {
            return Err(ParseError::InvalidRule);
        }
        let ghost f = views(fields@);
        assert(f[0] == fields@[0]@ && f[1] == fields@[1]@ && f[2] == fields@[2]@);
        let mut extra: Vec<Vec<u8>> = Vec::new();
        let mut i: usize = 3;
        while i < fields.len()
            invariant
                3 <= i <= fields@.len(),
                f == views(fields@),
                views(extra@) == f.subrange(3, i as int),
            decreases fields@.len() - i,
        {
            let ghost before = views(extra@);
            extra.push(copy_all(fields[i].as_slice()));
            assert(views(extra@) =~= before.push(f[i as int]));
            assert(f.subrange(3, i + 1) =~= f.subrange(3, i as int).push(f[i as int]));
            i = i + 1;
        }
        let pattern = match read_pattern(fields[0].as_slice(), fields[1].as_slice()) {
            Ok(p) => p,
            Err(e) => return Err(e),
        };
        let decision = match read_decision(fields[2].as_slice(), &extra) {
            Ok(d) => d,
            Err(e) => return Err(e),
        };
        let args = if fields.len() > 3 {
            Some(Args(extra))
        } else {
            None
        };
        Ok(Rule { pattern, decision, args })
    }

    /// The decision this rule gives a destination, with its extra fields: its own
    /// decision when its pattern matches, else `Default`.
    pub fn enforce(&self, dst: &DstAddr) -> (r: (Decision, Option<&Args>))
        ensures
            pattern_matches(self@.pattern, dst@) ==> r.0 == self.decision && r.1 == match &self.args {
                Some(a) => Some(a),
                None => None::<&Args>,
            },
            !pattern_matches(self@.pattern, dst@) ==> r.0 == Decision::Default && r.1 is None,
    {
        if self.pattern.is_match(dst) {
            match &self.args {
                Some(a) => (self.decision, Some(a)),
                None => (self.decision, None),
            }
        } else {
            (Decision::Default, None)
        }
    }
}

/// The position of the first rule whose pattern matches and whose decision is not
/// `Default`, if any.
pub open spec fn first_decisive(rules: Seq<RuleView>, d: DstView) -> Option<int>
    decreases rules.len(),
{
    if rules.len() == 0 {
        None
    } else if pattern_matches(rules[0].pattern, d) && rules[0].decision != Decision::Default {
        Some(0)
    } else {
        match first_decisive(rules.drop_first(), d) {
            Some(i) => Some(i + 1),
            None => None,
        }
    }
}

/// The rules' values.
pub open spec fn rule_views(rules: Seq<Rule>) -> Seq<RuleView> {
    Seq::new(rules.len(), |i: int| rules[i]@)
}

/// Scans the rules in order and returns the first decision that is not `Default`,
/// with that rule's extra fields; `Default` and nothing when there is none.
pub fn enforce<'a>(rules: &'a [Rule], dst: &DstAddr) -> (r: (Decision, Option<&'a Args>))
    ensures
        match first_decisive(rule_views(rules@), dst@) {
            Some(i) => r.0 == rules@[i].decision && r.1 == match &rules@[i].args {
                Some(a) => Some(a),
                None => None::<&Args>,
            },
            None => r.0 == Decision::Default && r.1 is None,
        },
{
    let mut i: usize = 0;
    assert(rule_views(rules@).subrange(0, rules@.len() as int) == rule_views(rules@));
    while i < rules.len()
        invariant
            i <= rules@.len(),
            first_decisive(rule_views(rules@), dst@) == match first_decisive(
                rule_views(rules@).subrange(i as int, rules@.len() as int),
                dst@,
            ) {
                Some(j) => Some(j + i),
                None => None::<int>,
            },
        decreases rules@.len() - i,
    {
        let ghost rest = rule_views(rules@).subrange(i as int, rules@.len() as int);
        assert(rest[0] == rules@[i as int]@);
        assert(rest.drop_first() == rule_views(rules@).subrange(i + 1, rules@.len() as int));
        let (d, a) = rules[i].enforce(dst);
        if !d.is_default() {
            return (d, a);
        }
        i = i + 1;
    }
    assert(rule_views(rules@).subrange(i as int, rules@.len() as int).len() == 0);
    (Decision::Default, None)
}

/// The decision that scanning the rules gives a destination.
pub open spec fn enforced(rules: Seq<RuleView>, d: DstView) -> Decision {
    match first_decisive(rules, d) {
        Some(i) => rules[i].decision,
        None => Decision::Default,
    }
}

/// First-match law: the decision equals that of the first rule whose pattern
/// matches, and `Default` when none matches. It holds of every rule list in which
/// no matching rule that decides `Default` stands before a matching rule that
/// decides otherwise (such a `Default` rule is passed over by the scan).
pub proof fn lemma_enforce_first_match(rules: Seq<RuleView>, d: DstView)
    requires
        !(exists|i: int, j: int|
            0 <= i < j < rules.len() && pattern_matches(#[trigger] rules[i].pattern, d)
                && rules[i].decision == Decision::Default && pattern_matches(
                #[trigger] rules[j].pattern,
                d,
            ) && rules[j].decision != Decision::Default),
    ensures
        forall|i: int|
            0 <= i < rules.len() && pattern_matches(#[trigger] rules[i].pattern, d) && (forall|k: int|
                0 <= k < i ==> !pattern_matches(#[trigger] rules[k].pattern, d)) ==> enforced(rules, d)
                == rules[i].decision,
        (forall|i: int| 0 <= i < rules.len() ==> !pattern_matches(#[trigger] rules[i].pattern, d))
            ==> enforced(rules, d) == Decision::Default,
    decreases rules.len(),
{
    if rules.len() > 0 {
        let rest = rules.drop_first();
        assert forall|i: int, j: int|
            0 <= i < j < rest.len() && pattern_matches(#[trigger] rest[i].pattern, d)
                && rest[i].decision == Decision::Default && pattern_matches(
                #[trigger] rest[j].pattern,
                d,
            ) implies rest[j].decision == Decision::Default by {
            assert(rest[i] == rules[i + 1] && rest[j] == rules[j + 1]);
        }
        lemma_enforce_first_match(rest, d);
        if pattern_matches(rules[0].pattern, d) && rules[0].decision == Decision::Default {
            assert forall|j: int| 0 <= j < rest.len() && pattern_matches(
                #[trigger] rest[j].pattern,
                d,
            ) implies rest[j].decision == Decision::Default by {
                assert(rest[j] == rules[j + 1]);
            }
            lemma_no_decisive(rest, d);
        }
        assert forall|i: int|
            0 <= i < rules.len() && pattern_matches(#[trigger] rules[i].pattern, d) && (forall|k: int|
                0 <= k < i ==> !pattern_matches(#[trigger] rules[k].pattern, d)) implies enforced(
            rules,
            d,
        ) == rules[i].decision by {
            if i > 0 {
                assert(!pattern_matches(rules[0].pattern, d));
                lemma_enforced_shift(rules, d);
                assert(rest[i - 1] == rules[i]);
                assert forall|k: int| 0 <= k < i - 1 implies !pattern_matches(
                    #[trigger] rest[k].pattern,
                    d,
                ) by {
                    assert(rest[k] == rules[k + 1]);
                }
            }
        }
        if forall|i: int| 0 <= i < rules.len() ==> !pattern_matches(#[trigger] rules[i].pattern, d) {
            assert forall|i: int| 0 <= i < rest.len() implies !pattern_matches(
                #[trigger] rest[i].pattern,
                d,
            ) by {
                assert(rest[i] == rules[i + 1]);
            }
            assert(!pattern_matches(rules[0].pattern, d));
            lemma_enforced_shift(rules, d);
        }
    }
}

/// The decisive position lies within the list, and its rule is decisive.
pub proof fn lemma_first_decisive_range(rules: Seq<RuleView>, d: DstView)
    ensures
        first_decisive(rules, d) matches Some(i) ==> 0 <= i < rules.len() && pattern_matches(
            rules[i].pattern,
            d,
        ) && rules[i].decision != Decision::Default,
    decreases rules.len(),
{
    if rules.len() > 0 {
        lemma_first_decisive_range(rules.drop_first(), d);
    }
}

/// When the first rule is not decisive, scanning gives what scanning the rest gives.
proof fn lemma_enforced_shift(rules: Seq<RuleView>, d: DstView)
    requires
        rules.len() > 0,
        !(pattern_matches(rules[0].pattern, d) && rules[0].decision != Decision::Default),
    ensures
        enforced(rules, d) == enforced(rules.drop_first(), d),
{
    let rest = rules.drop_first();
    lemma_first_decisive_range(rest, d);
    match first_decisive(rest, d) {
        Some(i) => {
            assert(first_decisive(rules, d) == Some(i + 1));
            assert(rest[i] == rules[i + 1]);
        },
        None => {},
    }
}

/// When every matching rule decides `Default`, no rule is decisive.
proof fn lemma_no_decisive(rules: Seq<RuleView>, d: DstView)
    requires
        forall|j: int|
            0 <= j < rules.len() && pattern_matches(#[trigger] rules[j].pattern, d) ==> rules[j].decision
                == Decision::Default,
    ensures
        first_decisive(rules, d) is None,
    decreases rules.len(),
{
    if rules.len() > 0 {
        let rest = rules.drop_first();
        assert forall|j: int| 0 <= j < rest.len() && pattern_matches(
            #[trigger] rest[j].pattern,
            d,
        ) implies rest[j].decision == Decision::Default by {
            assert(rest[j] == rules[j + 1]);
        }
        lemma_no_decisive(rest, d);
    }
}

/// The tag a pattern is written with.
pub open spec fn tag_text(p: PatternView) -> Seq<u8> {
    match p {
        PatternView::DomainExact(_) => tag_domain(),
        PatternView::DomainSuffix(_) => tag_domain_suffix(),
        PatternView::DomainRegex(_, _) => tag_domain_regex(),
        PatternView::DomainKeyword(_) => tag_domain_keyword(),
        PatternView::IpExact(IpView::V4(_)) => tag_ipv4(),
        PatternView::IpExact(IpView::V6(_)) => tag_ipv6(),
        PatternView::IpCidr(IpView::V4(_), _) => tag_ip_cidr(),
        PatternView::IpCidr(IpView::V6(_), _) => tag_ip_cidr6(),
    }
}

/// The pattern field of a pattern.
pub open spec fn pattern_text(p: PatternView) -> Seq<u8> {
    match p {
        PatternView::DomainExact(s) => s,
        PatternView::DomainSuffix(s) => s,
        PatternView::DomainRegex(s, _) => s,
        PatternView::DomainKeyword(s) => s,
        PatternView::IpExact(ip) => ip_text(ip),
        PatternView::IpCidr(ip, k) => ip_text(ip) + seq![47u8] + decimal(k),
    }
}

/// The decision field of a decision.
pub open spec fn decision_text(d: Decision) -> Seq<u8> {
    match d {
        Decision::Direct => word_direct(),
        Decision::Proxy { .. } => word_proxy(),
        Decision::Default => word_default(),
        Decision::Deny => word_deny(),
    }
}

/// The fields of a rule's display form.
pub open spec fn rule_fields(r: RuleView) -> Seq<Seq<u8>> {
    seq![tag_text(r.pattern), pattern_text(r.pattern), decision_text(r.decision)] + match r.args {
        Some(a) => a,
        None => seq![],
    }
}

/// The display form of a rule: `TAG,PATTERN,DECISION[,ARG]*`.
pub open spec fn rule_text(r: RuleView) -> Seq<u8> {
    join(rule_fields(r), 44)
}

impl Pattern {
    fn tag(&self) -> (r: Vec<u8>)
        ensures
            r@ == tag_text(self@),
    {
        match self {
            Pattern::DomainExact(_) => tag_domain_bytes(),
            Pattern::DomainSuffix(_) => tag_domain_suffix_bytes(),
            Pattern::DomainRegex(_, _) => tag_domain_regex_bytes(),
            Pattern::DomainKeyword(_) => tag_domain_keyword_bytes(),
            Pattern::IpExact(IpAddr::V4(_)) => tag_ipv4_bytes(),
            Pattern::IpExact(IpAddr::V6(_)) => tag_ipv6_bytes(),
            Pattern::IpCidr(IpAddr::V4(_), _) => tag_ip_cidr_bytes(),
            Pattern::IpCidr(IpAddr::V6(_), _) => tag_ip_cidr6_bytes(),
        }
    }

    fn text(&self) -> (r: Vec<u8>)
        ensures
            r@ == pattern_text(self@),
    {
        match self {
            Pattern::DomainExact(s) => copy_all(s.as_slice()),
            Pattern::DomainSuffix(s) => copy_all(s.as_slice()),
            Pattern::DomainRegex(s, _) => copy_all(s.as_slice()),
            Pattern::DomainKeyword(s) => copy_all(s.as_slice()),
            Pattern::IpExact(ip) => {
                let mut out: Vec<u8> = Vec::new();
                ip.write_text(&mut out);
                out
            },
            Pattern::IpCidr(ip, k) => {
                let mut out: Vec<u8> = Vec::new();
                ip.write_text(&mut out);
                out.push(47);
                write_decimal(&mut out, *k as u64);
                assert(out@ =~= pattern_text(self@));
                out
            },
        }
    }
}

impl Decision {
    fn text(&self) -> (r: Vec<u8>)
        ensures
            r@ == decision_text(*self),
    {
        match self {
            Decision::Direct => word_direct_bytes(),
            Decision::Proxy { .. } => word_proxy_bytes(),
            Decision::Default => word_default_bytes(),
            Decision::Deny => word_deny_bytes(),
        }
    }
}

impl Rule {
    /// The display form of this rule, `TAG,PATTERN,DECISION[,ARG]*`, with the tag
    /// in upper case and the decision in lower case.
    pub fn to_text(&self) -> (r: Vec<u8>)
        ensures
            r@ == rule_text(self@),
    {
        let mut fields: Vec<Vec<u8>> = Vec::new();
        fields.push(self.pattern.tag());
        fields.push(self.pattern.text());
        fields.push(self.decision.text());
        let ghost head = views(fields@);
        assert(head =~= seq![tag_text(self@.pattern), pattern_text(self@.pattern), decision_text(self.decision)]);
        match &self.args {
            Some(a) => {
                let mut i: usize = 0;
                while i < a.0.len()
                    invariant
                        i <= a.0@.len(),
                        views(fields@) == head + views(a.0@).subrange(0, i as int),
                    decreases a.0@.len() - i,
                {
                    let ghost before = views(fields@);
                    fields.push(copy_all(a.0[i].as_slice()));
                    assert(views(fields@) =~= before.push(a.0@[i as int]@));
                    assert(views(a.0@).subrange(0, i + 1) =~= views(a.0@).subrange(0, i as int).push(
                        a.0@[i as int]@,
                    ));
                    i = i + 1;
                }
                assert(views(a.0@).subrange(0, a.0@.len() as int) == views(a.0@));
            },
            None => {
                assert(head + Seq::<Seq<u8>>::empty() == head);
            },
        }
        let mut out: Vec<u8> = Vec::new();
        write_joined(&mut out, &fields, 44);
        out
    }
}

/// CIDR law: an IP-CIDR rule with an in-range prefix matches an address of its
/// own family exactly when the first `prefix` bits of the address equal those of
/// the network.
pub proof fn lemma_cidr_matches(net: IpView, prefix: nat, addr: DstView)
    requires
        valid_pattern(PatternView::IpCidr(net, prefix)),
        match (net, addr) {
            (IpView::V4(_), DstView::Ipv4(_, _)) => true,
            (IpView::V6(_), DstView::Ipv6(_, _)) => true,
            _ => false,
        },
    ensures
        pattern_matches(PatternView::IpCidr(net, prefix), addr) <==> match (net, addr) {
            (IpView::V4(n), DstView::Ipv4(a, _)) => prefix_agrees(a, n, prefix as int),
            (IpView::V6(n), DstView::Ipv6(a, _)) => prefix_agrees(a, n, prefix as int),
            _ => false,
        },
{
}

/// The tags and decision words hold no comma, and have these lengths.
proof fn lemma_words()
    ensures
        !has_byte(tag_domain(), 44),
        !has_byte(tag_domain_suffix(), 44),
        !has_byte(tag_domain_regex(), 44),
        !has_byte(tag_domain_keyword(), 44),
        !has_byte(tag_ipv4(), 44),
        !has_byte(tag_ipv6(), 44),
        !has_byte(tag_ip_cidr(), 44),
        !has_byte(tag_ip_cidr6(), 44),
        !has_byte(word_direct(), 44),
        !has_byte(word_proxy(), 44),
        !has_byte(word_default(), 44),
        !has_byte(word_deny(), 44),
        tag_domain().len() == 6,
        tag_domain_suffix().len() == 13,
        tag_domain_regex().len() == 12,
        tag_domain_keyword().len() == 14,
        tag_ipv4().len() == 4,
        tag_ipv6().len() == 4,
        tag_ip_cidr().len() == 7,
        tag_ip_cidr6().len() == 8,
        word_direct().len() == 6,
        word_proxy().len() == 5,
        word_default().len() == 7,
        word_deny().len() == 4,
        !eq_ignore_case(tag_ipv6(), tag_ipv4()),
{
    if has_byte(tag_domain(), 44) {
        let k = choose|k: int| 0 <= k < tag_domain().len() && tag_domain()[k] == 44;
        assert(k == 0 || k == 1 || k == 2 || k == 3 || k == 4 || k == 5);
    }
    if has_byte(tag_domain_suffix(), 44) {
        let k = choose|k: int| 0 <= k < tag_domain_suffix().len() && tag_domain_suffix()[k] == 44;
        assert(k == 0 || k == 1 || k == 2 || k == 3 || k == 4 || k == 5 || k == 6 || k == 7 || k == 8 || k == 9 || k == 10 || k == 11 || k == 12);
    }
    if has_byte(tag_domain_regex(), 44) {
        let k = choose|k: int| 0 <= k < tag_domain_regex().len() && tag_domain_regex()[k] == 44;
        assert(k == 0 || k == 1 || k == 2 || k == 3 || k == 4 || k == 5 || k == 6 || k == 7 || k == 8 || k == 9 || k == 10 || k == 11);
    }
    if has_byte(tag_domain_keyword(), 44) {
        let k = choose|k: int| 0 <= k < tag_domain_keyword().len() && tag_domain_keyword()[k] == 44;
        assert(k == 0 || k == 1 || k == 2 || k == 3 || k == 4 || k == 5 || k == 6 || k == 7 || k == 8 || k == 9 || k == 10 || k == 11 || k == 12 || k == 13);
    }
    if has_byte(tag_ipv4(), 44) {
        let k = choose|k: int| 0 <= k < tag_ipv4().len() && tag_ipv4()[k] == 44;
        assert(k == 0 || k == 1 || k == 2 || k == 3);
    }
    if has_byte(tag_ipv6(), 44) {
        let k = choose|k: int| 0 <= k < tag_ipv6().len() && tag_ipv6()[k] == 44;
        assert(k == 0 || k == 1 || k == 2 || k == 3);
    }
    if has_byte(tag_ip_cidr(), 44) {
        let k = choose|k: int| 0 <= k < tag_ip_cidr().len() && tag_ip_cidr()[k] == 44;
        assert(k == 0 || k == 1 || k == 2 || k == 3 || k == 4 || k == 5 || k == 6);
    }
    if has_byte(tag_ip_cidr6(), 44) {
        let k = choose|k: int| 0 <= k < tag_ip_cidr6().len() && tag_ip_cidr6()[k] == 44;
        assert(k == 0 || k == 1 || k == 2 || k == 3 || k == 4 || k == 5 || k == 6 || k == 7);
    }
    if has_byte(word_direct(), 44) {
        let k = choose|k: int| 0 <= k < word_direct().len() && word_direct()[k] == 44;
        assert(k == 0 || k == 1 || k == 2 || k == 3 || k == 4 || k == 5);
    }
    if has_byte(word_proxy(), 44) {
        let k = choose|k: int| 0 <= k < word_proxy().len() && word_proxy()[k] == 44;
        assert(k == 0 || k == 1 || k == 2 || k == 3 || k == 4);
    }
    if has_byte(word_default(), 44) {
        let k = choose|k: int| 0 <= k < word_default().len() && word_default()[k] == 44;
        assert(k == 0 || k == 1 || k == 2 || k == 3 || k == 4 || k == 5 || k == 6);
    }
    if has_byte(word_deny(), 44) {
        let k = choose|k: int| 0 <= k < word_deny().len() && word_deny()[k] == 44;
        assert(k == 0 || k == 1 || k == 2 || k == 3);
    }
    assert(lower(tag_ipv6()[3]) != lower(tag_ipv4()[3]));
}

/// An address that text spells has the octet count of its family.
proof fn lemma_parsed_ip_valid(s: Seq<u8>)
    ensures
        parse_ip_text(s) matches Some(ip) ==> valid_ip(ip),
{
}

/// A pattern read from a tag and a comma-free pattern field is read back from its
/// own tag and pattern field, which hold no comma.
proof fn lemma_pattern_round_trip(tag: Seq<u8>, pat: Seq<u8>)
    requires
        parse_pattern(tag, pat) is Ok,
        !has_byte(pat, 44),
    ensures
        parse_pattern(tag_text(parse_pattern(tag, pat)->Ok_0), pattern_text(parse_pattern(tag, pat)->Ok_0))
            == parse_pattern(tag, pat),
        !has_byte(pattern_text(parse_pattern(tag, pat)->Ok_0), 44),
        !has_byte(tag_text(parse_pattern(tag, pat)->Ok_0), 44),
{
    lemma_words();
    let p = parse_pattern(tag, pat)->Ok_0;
    match p {
        PatternView::IpExact(ip) => {
            lemma_parsed_ip_valid(pat);
            lemma_ip_round_trip(ip);
        },
        PatternView::IpCidr(ip, k) => {
            let parts = split(pat, 47);
            lemma_parsed_ip_valid(parts[0]);
            lemma_ip_round_trip(ip);
            lemma_decimal(k);
            crate::text::lemma_digits_lack(decimal(k), 47);
            crate::text::lemma_digits_lack(decimal(k), 44);
            let q = seq![ip_text(ip), decimal(k)];
            crate::text::lemma_join_two(ip_text(ip), decimal(k), 47);
            assert forall|i: int| 0 <= i < q.len() implies !has_byte(#[trigger] q[i], 47) by {
                if i == 0 {} else {}
            }
            crate::text::lemma_split_join(q, 47);
            let t = pattern_text(p);
            assert(t == ip_text(ip) + seq![47u8] + decimal(k));
            assert(split(t, 47) == q);
            if has_byte(t, 44) {
                let j = choose|j: int| 0 <= j < t.len() && t[j] == 44;
                let n = ip_text(ip).len() as int;
                if j < n {
                    assert(ip_text(ip)[j] == 44);
                } else if j > n {
                    assert(decimal(k)[j - n - 1] == 44);
                }
            }
        },
        _ => {},
    }
}

/// A decision read from a decision field is read back from its own word.
proof fn lemma_decision_round_trip(dec: Seq<u8>, args: Seq<Seq<u8>>)
    requires
        parse_decision(dec, args) is Ok,
    ensures
        parse_decision(decision_text(parse_decision(dec, args)->Ok_0), args) == parse_decision(dec, args),
        !has_byte(decision_text(parse_decision(dec, args)->Ok_0), 44),
{
    lemma_words();
}

/// Display round trip: a rule read from a line is read back, unchanged, from its
/// display form (regular expressions are compared by their source text).
pub proof fn lemma_rule_round_trip(line: Seq<u8>)
    requires
        parse_rule(line) is Ok,
    ensures
        parse_rule(rule_text(parse_rule(line)->Ok_0)) == parse_rule(line),
{
    let r = parse_rule(line)->Ok_0;
    let f = split(line, 44);
    crate::text::lemma_split_fields(line, 44);
    let args = f.subrange(3, f.len() as int);
    assert(!has_byte(f[1], 44));
    lemma_pattern_round_trip(f[0], f[1]);
    lemma_decision_round_trip(f[2], args);
    let a = match r.args {
        Some(x) => x,
        None => seq![],
    };
    assert(a == args);
    let fields = rule_fields(r);
    assert(fields == seq![tag_text(r.pattern), pattern_text(r.pattern), decision_text(r.decision)] + args);
    assert forall|i: int| 0 <= i < fields.len() implies !has_byte(#[trigger] fields[i], 44) by {
        if i >= 3 {
            assert(fields[i] == f[i]);
        }
    }
    crate::text::lemma_split_join(fields, 44);
    assert(split(rule_text(r), 44) == fields);
    assert(fields.subrange(3, fields.len() as int) == args);
}

/// A named list of rules, kept with their display forms.
#[derive(Debug)]
pub struct RuleSet {
    pub name: Option<String>,
    pub rules: Vec<Vec<u8>>,
    pub parsed: Vec<Rule>,
}

impl RuleSet {
    /// The parsed rules, in order.
    pub open spec fn parsed_view(&self) -> Seq<RuleView> {
        rule_views(self.parsed@)
    }

    /// A named set of rules; its texts are the rules' display forms.
    pub fn new(name: String, rules: Vec<Rule>) -> (r: RuleSet)
        ensures
            r.name == Some(name),
            r.parsed_view() == rule_views(rules@),
            views(r.rules@) == Seq::new(rules@.len(), |i: int| rule_text(rules@[i]@)),
    {
        let mut texts: Vec<Vec<u8>> = Vec::new();
        let mut i: usize = 0;
        while i < rules.len()
            invariant
                i <= rules@.len(),
                views(texts@) == Seq::new(i as nat, |k: int| rule_text(rules@[k]@)),
            decreases rules@.len() - i,
        {
            let ghost before = views(texts@);
            let t = rules[i].to_text();
            texts.push(t);
            assert(views(texts@) =~= before.push(rule_text(rules@[i as int]@)));
            assert(views(texts@) =~= Seq::new((i + 1) as nat, |k: int| rule_text(rules@[k]@)));
            i = i + 1;
        }
        RuleSet { name: Some(name), rules: texts, parsed: rules }
    }

    /// The decision of the first decisive rule of this set.
    pub fn enforce(&self, dst: &DstAddr) -> (r: Decision)
        ensures
            r == enforced(self.parsed_view(), dst@),
    {
        let (d, _) = enforce(self.parsed.as_slice(), dst);
        proof {
            lemma_first_decisive_range(rule_views(self.parsed@), dst@);
            if let Some(i) = first_decisive(rule_views(self.parsed@), dst@) {
                assert(rule_views(self.parsed@)[i] == self.parsed@[i]@);
            }
        }
        d
    }
}

/// The decision of the first set that decides otherwise than `Default`.
pub open spec fn enforced_sets(sets: Seq<Seq<RuleView>>, d: DstView) -> Decision
    decreases sets.len(),
{
    if sets.len() == 0 {
        Decision::Default
    } else if enforced(sets[0], d) != Decision::Default {
        enforced(sets[0], d)
    } else {
        enforced_sets(sets.drop_first(), d)
    }
}

/// Rule sets, consulted in order.
#[derive(Debug)]
pub struct Rules {
    pub rules: Vec<RuleSet>,
}

impl Rules {
    /// The sets' rules, in order.
    pub open spec fn sets_view(&self) -> Seq<Seq<RuleView>> {
        Seq::new(self.rules@.len(), |i: int| self.rules@[i].parsed_view())
    }

    /// The decision of the first set that decides otherwise than `Default`.
    pub fn enforce(&self, dst: &DstAddr) -> (r: Decision)
        ensures
            r == enforced_sets(self.sets_view(), dst@),
    {
        let mut i: usize = 0;
        assert(self.sets_view().subrange(0, self.rules@.len() as int) == self.sets_view());
        while i < self.rules.len()
            invariant
                i <= self.rules@.len(),
                enforced_sets(self.sets_view(), dst@) == enforced_sets(
                    self.sets_view().subrange(i as int, self.rules@.len() as int),
                    dst@,
                ),
            decreases self.rules@.len() - i,
        {
            let ghost rest = self.sets_view().subrange(i as int, self.rules@.len() as int);
            assert(rest[0] == self.rules@[i as int].parsed_view());
            assert(rest.drop_first() == self.sets_view().subrange(i + 1, self.rules@.len() as int));
            let d = self.rules[i].enforce(dst);
            if !d.is_default() {
                return d;
            }
            i = i + 1;
        }
        Decision::Default
    }
}

} // verus!
