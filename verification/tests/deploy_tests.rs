use filen_relay::deploy::{
    api_url, containers_endpoint, deploy_endpoint, find_namespace, namespace_endpoint,
    namespace_ready, namespaces_endpoint, projects_endpoint,
    ContainersNamespacesListResponseItem,
};
use filen_relay::util::UnwrapOnceLock;

fn ns(id: &str, status: &str) -> ContainersNamespacesListResponseItem {
    ContainersNamespacesListResponseItem {
        id: id.to_string(),
        name: "filen-relay-test".to_string(),
        status: status.to_string(),
    }
}

#[test]
fn api_urls_join_the_base_and_drop_extra_slashes() {
    assert_eq!(api_url("account/v3/projects"), "https://api.scaleway.com/account/v3/projects");
    assert_eq!(api_url("/account/v3/projects"), "https://api.scaleway.com/account/v3/projects");
    assert_eq!(api_url("///x"), "https://api.scaleway.com/x");
    assert_eq!(api_url(""), "https://api.scaleway.com/");
}

#[test]
fn endpoint_paths() {
    assert_eq!(
        projects_endpoint("org-1"),
        "account/v3/projects?organization_id=org-1"
    );
    assert_eq!(
        namespaces_endpoint("fr-par"),
        "containers/v1beta1/regions/fr-par/namespaces"
    );
    assert_eq!(
        namespace_endpoint("fr-par", "ns-1"),
        "containers/v1beta1/regions/fr-par/namespaces/ns-1"
    );
    assert_eq!(
        containers_endpoint("nl-ams"),
        "containers/v1beta1/regions/nl-ams/containers"
    );
    assert_eq!(
        deploy_endpoint("pl-waw", "c-9"),
        "containers/v1beta1/regions/pl-waw/containers/c-9/deploy"
    );
}

#[test]
fn requested_namespace_is_found_by_id() {
    let namespaces = vec![ns("ns-1", "ready"), ns("ns-2", "pending")];
    assert_eq!(find_namespace(&namespaces, "ns-2"), Some(1));
    assert_eq!(find_namespace(&namespaces, "ns-9"), None);
}

#[test]
fn readiness_poll_condition() {
    assert!(namespace_ready(&ns("ns-1", "ready")));
    assert!(!namespace_ready(&ns("ns-1", "pending")));
    assert!(!namespace_ready(&ns("ns-1", "error")));
}

#[test]
fn set_once_cell_keeps_the_first_value() {
    let cell: UnwrapOnceLock<u32> = UnwrapOnceLock::new();
    assert!(cell.get().is_none());
    cell.init(7);
    assert_eq!(cell.get(), Some(&7));
    cell.init(9);
    assert_eq!(cell.get(), Some(&7));
}
