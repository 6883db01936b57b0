use ambermap::web::{resolve_mime, route_request, status_json, Route};

#[test]
fn test_mime_type_resolution() {
    assert_eq!(resolve_mime("index.html"), "text/html; charset=utf-8");
    assert_eq!(resolve_mime("style.css"), "text/css; charset=utf-8");
    assert_eq!(
        resolve_mime("app.js"),
        "application/javascript; charset=utf-8"
    );
    assert_eq!(resolve_mime("0.webp"), "image/webp");
    assert_eq!(resolve_mime("0.png"), "image/png");
    assert_eq!(resolve_mime("data.json"), "application/json");
    assert_eq!(resolve_mime("icon.svg"), "image/svg+xml");
    assert_eq!(resolve_mime("unknown.bin"), "application/octet-stream");
}

#[test]
fn test_mime_of_nested_and_odd_paths() {
    assert_eq!(resolve_mime("overworld/3/-2/7.webp"), "image/webp");
    assert_eq!(resolve_mime("js"), "application/octet-stream");
    assert_eq!(resolve_mime(""), "application/octet-stream");
    assert_eq!(resolve_mime("é.png"), "image/png");
}

#[test]
fn test_routes() {
    assert_eq!(route_request("/api/status"), Route::Status);
    assert_eq!(route_request("/api/status?t=1"), Route::Status);
    assert_eq!(
        route_request("/tiles/overworld/4/1/2.webp?v=3"),
        Route::Tile("overworld/4/1/2.webp".to_string())
    );
    assert_eq!(route_request("/tiles/"), Route::Tile(String::new()));
    assert_eq!(route_request("/tiles"), Route::Asset("/tiles".to_string()));
    assert_eq!(route_request("/"), Route::Asset("/".to_string()));
    assert_eq!(route_request("/js/app.js?x"), Route::Asset("/js/app.js".to_string()));
    assert_eq!(route_request("?q"), Route::Asset(String::new()));
}

#[test]
fn test_status_json() {
    assert_eq!(
        status_json("webp", 5),
        "{\"status\":\"ok\",\"format\":\"webp\",\"max_zoom\":5,\"center_x\":0,\"center_z\":0}"
    );
}
