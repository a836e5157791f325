//! The data model and pure compute of the deployment helper, which brings
//! the relay up on a container platform: response shapes of the platform's
//! API, the endpoint paths the calls use, and the namespace-selection and
//! readiness decisions. The HTTP calls themselves and the interactive
//! prompts live outside and hand these functions plain values.

use vstd::prelude::*;

use crate::common::str_eq;

verus! {

/// Response to listing the account's projects.
pub struct ListProjectsResponse {
    pub projects: Vec<ListProjectsResponseItem>,
}

/// One project of the account.
pub struct ListProjectsResponseItem {
    pub id: String,
    pub name: String,
}

/// Response to listing the container namespaces of a region.
pub struct ContainersNamespacesListResponse {
    pub namespaces: Vec<ContainersNamespacesListResponseItem>,
}

/// One container namespace.
pub struct ContainersNamespacesListResponseItem {
    pub id: String,
    pub name: String,
    pub status: String,
}

/// One deployed container.
pub struct ContainersListResponseItem {
    pub id: String,
    pub domain_name: String,
}

/// Whether `k` is where the leading slashes of `s` end.
pub open spec fn slashes_end_at(s: Seq<char>, k: int) -> bool {
    &&& 0 <= k <= s.len()
    &&& (forall|j: int| 0 <= j < k ==> s[j] == '/')
    &&& (k == s.len() || s[k] != '/')
}

/// The absolute URL of an API endpoint: the platform's base URL joined
/// with the endpoint path, extra leading slashes dropped.
pub fn api_url(endpoint: &str) -> (r: String)
    ensures
        forall|k: int|
            #[trigger] slashes_end_at(endpoint@, k) ==> r@ == "https://api.scaleway.com/"@
                + endpoint@.skip(k),
{
    let n = endpoint.unicode_len();
    let mut k: usize = 0;
    while k < n && endpoint.get_char(k) == '/'
        invariant
            k <= n,
            n == endpoint@.len(),
            forall|j: int| 0 <= j < k ==> endpoint@[j] == '/',
        decreases n - k,
    {
        k = k + 1;
    }
    let tail = endpoint.substring_char(k, n);
    let mut s = "https://api.scaleway.com/".to_owned();
    s.append(tail);
    proof {
        assert(slashes_end_at(endpoint@, k as int));
        assert forall|k2: int| slashes_end_at(endpoint@, k2) implies k2 == k as int by {
            if k2 < k as int {
                assert(endpoint@[k2] == '/');
                assert(endpoint@[k2] != '/');
            }
            if (k as int) < k2 {
                assert(endpoint@[k as int] == '/');
                assert(endpoint@[k as int] != '/');
            }
        }
        assert(tail@ =~= endpoint@.skip(k as int));
    }
    s
}

/// The endpoint that lists an organization's projects.
pub fn projects_endpoint(organization_id: &str) -> (r: String)
    ensures
        r@ == "account/v3/projects?organization_id="@ + organization_id@,
{
    let mut s = "account/v3/projects?organization_id=".to_owned();
    s.append(organization_id);
    s
}

/// The endpoint that lists or creates a region's container namespaces.
pub fn namespaces_endpoint(region: &str) -> (r: String)
    ensures
        r@ == "containers/v1beta1/regions/"@ + region@ + "/namespaces"@,
{
    let mut s = "containers/v1beta1/regions/".to_owned();
    s.append(region);
    s.append("/namespaces");
    s
}

/// The endpoint of one container namespace.
pub fn namespace_endpoint(region: &str, namespace_id: &str) -> (r: String)
    ensures
        r@ == "containers/v1beta1/regions/"@ + region@ + "/namespaces/"@ + namespace_id@,
{
    let mut s = "containers/v1beta1/regions/".to_owned();
    s.append(region);
    s.append("/namespaces/");
    s.append(namespace_id);
    s
}

/// The endpoint that creates a region's containers.
pub fn containers_endpoint(region: &str) -> (r: String)
    ensures
        r@ == "containers/v1beta1/regions/"@ + region@ + "/containers"@,
{
    let mut s = "containers/v1beta1/regions/".to_owned();
    s.append(region);
    s.append("/containers");
    s
}

/// The endpoint that deploys one container.
pub fn deploy_endpoint(region: &str, container_id: &str) -> (r: String)
    ensures
        r@ == "containers/v1beta1/regions/"@ + region@ + "/containers/"@ + container_id@
            + "/deploy"@,
{
    let mut s = "containers/v1beta1/regions/".to_owned();
    s.append(region);
    s.append("/containers/");
    s.append(container_id);
    s.append("/deploy");
    s
}

/// The first namespace with this id, if any — how a requested namespace id
/// is resolved against the listing.
pub fn find_namespace(
    namespaces: &Vec<ContainersNamespacesListResponseItem>,
    namespace_id: &str,
) -> (r: Option<usize>)
    ensures
        match r {
            Some(i) => 0 <= i < namespaces@.len() && namespaces@[i as int].id@ == namespace_id@,
            None => forall|j: int|
                0 <= j < namespaces@.len() ==> (#[trigger] namespaces@[j]).id@ != namespace_id@,
        },
{
    let mut i: usize = 0;
    while i < namespaces.len()
        invariant
            i <= namespaces@.len(),
            forall|j: int| 0 <= j < i ==> (#[trigger] namespaces@[j]).id@ != namespace_id@,
        decreases namespaces@.len() - i,
    {
        if str_eq(namespaces[i].id.as_str(), namespace_id) {
            return Some(i);
        }
        i = i + 1;
    }
    None
}

/// Whether a namespace is ready to deploy into — the condition the
/// readiness poll loop waits for.
pub fn namespace_ready(namespace: &ContainersNamespacesListResponseItem) -> (r: bool)
    ensures
        r == (namespace.status@ == "ready"@),
{
    str_eq(namespace.status.as_str(), "ready")
}

} // verus!
