//! The management API's request and response shapes, as plain data.
//!
//! The HTTP layer converts between these and its wire types; the shapes
//! and their defaults are fixed here.

use vstd::prelude::*;

use crate::json::JsonVal;

verus! {

use vstd::string::StringExecFns;

/// The default page size of the audit-log listing.
pub fn default_limit() -> (r: i64)
    ensures
        r == 50,
{
    50
}

/// The flag type assumed when a create request names none.
pub fn default_flag_type() -> (r: String)
    ensures
        r@ == "boolean"@,
{
    String::from_str("boolean")
}

/// The key type assumed when a create request names none.
pub fn default_key_type() -> (r: String)
    ensures
        r@ == "server"@,
{
    String::from_str("server")
}

/// The match type assumed when a create request names none.
pub fn default_match_type() -> (r: String)
    ensures
        r@ == "all"@,
{
    String::from_str("all")
}

/// A page request against the audit log.
#[derive(Debug, Clone)]
pub struct AuditLogQuery {
    pub limit: i64,
    pub offset: i64,
}

/// A request to create an environment.
#[derive(Debug, Clone)]
pub struct CreateEnvironmentRequest {
    pub name: String,
    pub slug: String,
    pub color: Option<String>,
}

/// An environment as the management API reports it.
#[derive(Debug, Clone)]
pub struct EnvironmentResponse {
    pub id: String,
    pub name: String,
    pub slug: String,
    pub color: Option<String>,
    pub sort_order: i32,
    pub created_at: String,
    pub updated_at: String,
}

/// A request to update a flag's metadata.
#[derive(Debug, Clone)]
pub struct UpdateFlagRequest {
    pub name: Option<String>,
    pub description: Option<String>,
    pub tags: Option<Vec<String>>,
    pub archived: Option<bool>,
}

/// A project as the management API reports it.
#[derive(Debug, Clone)]
pub struct ProjectResponse {
    pub id: String,
    pub organization_id: String,
    pub name: String,
    pub slug: String,
    pub description: Option<String>,
    pub created_at: String,
    pub updated_at: String,
}

/// An SDK key as the management API reports it: never the plaintext key.
#[derive(Debug, Clone)]
pub struct SdkKeyResponse {
    pub id: String,
    pub environment_id: String,
    pub name: String,
    pub key_type: String,
    pub key_prefix: String,
    pub last_used_at: Option<String>,
    pub created_at: String,
    pub revoked_at: Option<String>,
}

/// The one response that carries a plaintext SDK key, at creation.
#[derive(Debug, Clone)]
pub struct CreateSdkKeyResponse {
    pub key: SdkKeyResponse,
    pub raw_key: String,
}

/// A request to create a segment.
#[derive(Debug, Clone)]
pub struct CreateSegmentRequest {
    pub key: String,
    pub name: String,
    pub description: Option<String>,
    pub match_type: String,
    pub constraints: Vec<ConstraintInput>,
}

/// One constraint of a segment create request.
#[derive(Debug, Clone)]
pub struct ConstraintInput {
    pub attribute: String,
    pub operator: String,
    pub values: Vec<String>,
}

/// A segment as the management API reports it.
#[derive(Debug, Clone)]
pub struct SegmentResponse {
    pub id: String,
    pub key: String,
    pub name: String,
    pub description: Option<String>,
    pub match_type: String,
    pub constraints: Vec<ConstraintResponse>,
    pub created_at: String,
    pub updated_at: String,
}

/// One constraint of a segment response.
#[derive(Debug, Clone)]
pub struct ConstraintResponse {
    pub id: String,
    pub attribute: String,
    pub operator: String,
    pub values: Vec<String>,
}

/// The bootstrap request: one organization, one project.
#[derive(Debug, Clone)]
pub struct SetupRequest {
    pub org_name: String,
    pub org_slug: String,
    pub project_name: String,
    pub project_slug: String,
}

/// The bootstrap response: the created identifiers and per-environment
/// keys.
#[derive(Debug, Clone)]
pub struct SetupResponse {
    pub organization_id: String,
    pub project_id: String,
    pub environments: Vec<EnvironmentInfo>,
}

/// One bootstrapped environment with its freshly generated keys.
#[derive(Debug, Clone)]
pub struct EnvironmentInfo {
    pub id: String,
    pub name: String,
    pub slug: String,
    pub server_key: String,
    pub client_key: String,
}

/// The claims carried by a management bearer token.
#[derive(Debug, Clone)]
pub struct ClerkClaims {
    pub sub: String,
    pub email: Option<String>,
    pub org_id: Option<String>,
    pub exp: u64,
    pub iat: u64,
    pub iss: Option<String>,
}

/// A request to create a flag with its variants.
#[derive(Debug, Clone)]
pub struct CreateFlagRequest {
    pub key: String,
    pub name: String,
    pub description: Option<String>,
    pub flag_type: String,
    pub tags: Vec<String>,
    pub variants: Vec<CreateVariantInput>,
    pub default_variant_key: String,
}

/// One variant of a flag create request.
#[derive(Debug, Clone)]
pub struct CreateVariantInput {
    pub key: String,
    pub value: JsonVal,
    pub description: Option<String>,
}

/// The names, slugs and colors of the environments the bootstrap creates.
pub fn bootstrap_environments() -> (r: Vec<(String, String, String)>)
    ensures
        r@.len() == 3,
        r@[0].0@ == "Development"@ && r@[0].1@ == "development"@ && r@[0].2@ == "#22c55e"@,
        r@[1].0@ == "Staging"@ && r@[1].1@ == "staging"@ && r@[1].2@ == "#eab308"@,
        r@[2].0@ == "Production"@ && r@[2].1@ == "production"@ && r@[2].2@ == "#ef4444"@,
{
    vec![
        (
            String::from_str("Development"),
            String::from_str("development"),
            String::from_str("#22c55e"),
        ),
        (String::from_str("Staging"), String::from_str("staging"), String::from_str("#eab308")),
        (
            String::from_str("Production"),
            String::from_str("production"),
            String::from_str("#ef4444"),
        ),
    ]
}

} // verus!
