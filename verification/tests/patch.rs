use geo_core::project::ResourceMode;
use geo_core::project_patch::{patch_command, ProjectPatchRequest, ProjectSettingsPatchRequest};
use geo_core::ErrorCode;

fn request() -> ProjectPatchRequest {
    ProjectPatchRequest {
        revision: None,
        slug: None,
        display_name: None,
        brand_name: None,
        product_name: None,
        market: None,
        language: None,
        target_audience: None,
        competitors: None,
        initial_sources: None,
        resource_mode: None,
        budget_currency: None,
        monthly_budget_minor: None,
        monitoring_reserve_percent: None,
        report_timezone: None,
        report_schedule: None,
        objective: None,
        document_scope: None,
        distribution_scope: None,
        settings: None,
    }
}

#[test]
fn top_level_fields_win_over_the_settings_block() {
    let mut settings = ProjectSettingsPatchRequest::empty();
    settings.brand_name = Some("Nested".to_owned());
    settings.market = Some("CN".to_owned());
    settings.monthly_budget_minor = Some(5_000);
    settings.resource_mode = Some(ResourceMode::Mixed);
    let mut body = request();
    body.brand_name = Some("Top".to_owned());
    body.settings = Some(settings);
    let (revision, patch) = body.into_domain();
    assert_eq!(revision, None);
    assert_eq!(patch.brand_name.as_deref(), Some("Top"));
    assert_eq!(patch.market.as_deref(), Some("CN"));
    assert_eq!(patch.monthly_budget_minor, Some(5_000));
    assert_eq!(patch.resource_mode, Some(ResourceMode::Mixed));
    assert!(patch.status.is_none());
}

#[test]
fn an_explicit_null_clears_and_an_absent_field_keeps() {
    let mut settings = ProjectSettingsPatchRequest::empty();
    settings.objective = Some(Some("Be cited".to_owned()));
    let mut body = request();
    body.product_name = Some(None);
    body.target_audience = Some(Some("Buyers".to_owned()));
    body.settings = Some(settings);
    let (_, patch) = body.into_domain();
    assert!(patch.clear_product_name);
    assert_eq!(patch.product_name, None);
    assert!(!patch.clear_target_audience);
    assert_eq!(patch.target_audience.as_deref(), Some("Buyers"));
    assert!(!patch.clear_objective);
    assert_eq!(patch.objective.as_deref(), Some("Be cited"));
}

#[test]
fn a_body_revision_must_match_if_match() {
    let mut body = request();
    body.revision = Some(3);
    let error = patch_command(body, 4).unwrap_err();
    assert_eq!(error.code, ErrorCode::Conflict);
    assert_eq!(error.message, "request revision does not match If-Match");

    let mut agreeing = request();
    agreeing.revision = Some(4);
    agreeing.display_name = Some("Renamed".to_owned());
    let patch = patch_command(agreeing, 4).unwrap();
    assert_eq!(patch.display_name.as_deref(), Some("Renamed"));
    assert!(patch_command(request(), 9).is_ok());
}
