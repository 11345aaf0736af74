use campaign_router::campaign::{
    assignment_rows, campaign_detail, new_campaign, CampaignError, SESSION_SECONDS,
};
use campaign_router::dto::{
    join_with, validation_message, AddCampaignRequest, AddOperatorRequest, BasicResponse,
    CampaignOperator, Claims, InvalidField, OperatorAssignment,
};
use campaign_router::model::{Campaign, Timestamp};

fn operator(channel: i32, identity: &str, name: &str, nickname: &str) -> AddOperatorRequest {
    AddOperatorRequest {
        channel,
        identity: identity.to_string(),
        name: name.to_string(),
        nickname: nickname.to_string(),
        schedule: vec!["mon".to_string(), "tue".to_string()],
        status: 1,
    }
}

fn assign(id: &str, grade: u8) -> OperatorAssignment {
    OperatorAssignment { id: id.to_string(), grade }
}

#[test]
fn valid_operator_passes() {
    assert!(operator(1, "628123", "Ana", "ana").validate().is_ok());
}

#[test]
fn every_bad_field_is_listed() {
    let r = operator(0, "", "Ana", "").validate();
    assert_eq!(r, Err(vec![InvalidField::Channel, InvalidField::Identity, InvalidField::Nickname]));
    let fields = r.unwrap_err();
    assert_eq!(
        validation_message(&fields),
        "channel must be at least 1; identity cannot be empty; nickname cannot be empty"
    );
}

#[test]
fn empty_name_is_refused() {
    assert_eq!(operator(2, "x", "", "n").validate(), Err(vec![InvalidField::Name]));
}

#[test]
fn schedule_is_joined_by_commas() {
    assert_eq!(operator(1, "a", "b", "c").schedule_text(), "mon,tue");
    let mut op = operator(1, "a", "b", "c");
    op.schedule = Vec::new();
    assert_eq!(op.schedule_text(), "");
}

#[test]
fn join_with_separator() {
    let parts = vec!["a".to_string(), "".to_string(), "c".to_string()];
    assert_eq!(join_with(&parts, "-"), "a--c");
    assert_eq!(join_with(&vec!["only".to_string()], ", "), "only");
}

#[test]
fn assignment_rows_start_at_zero_with_fresh_ids() {
    let ops = vec![assign("op1", 3), assign("op2", 1)];
    let rows = assignment_rows(&"camp".to_string(), &ops).unwrap();
    assert_eq!(rows.len(), 2);
    assert_eq!(rows[0].operator_id, "op1");
    assert_eq!(rows[0].grade, 3);
    assert_eq!(rows[1].operator_id, "op2");
    assert_eq!(rows[1].grade, 1);
    for r in &rows {
        assert_eq!(r.handle, 0);
        assert_eq!(r.campaign_id, "camp");
        assert_eq!(r.uuid.len(), 36);
    }
    assert_ne!(rows[0].uuid, rows[1].uuid);
}

#[test]
fn zero_grade_is_refused() {
    let ops = vec![assign("op1", 3), assign("op2", 0), assign("op3", 0)];
    assert_eq!(
        assignment_rows(&"c".to_string(), &ops).err(),
        Some(CampaignError::ZeroGrade(1))
    );
}

#[test]
fn operator_listed_twice_is_refused() {
    let ops = vec![assign("op1", 3), assign("op2", 1), assign("op1", 2)];
    assert_eq!(
        assignment_rows(&"c".to_string(), &ops).err(),
        Some(CampaignError::DuplicateOperator(2))
    );
}

#[test]
fn new_campaign_gets_an_id_and_rows() {
    let req = AddCampaignRequest {
        name: "Promo".to_string(),
        message: "Hi".to_string(),
        slug: "promo".to_string(),
        operators: vec![assign("op1", 2)],
    };
    let (id, rows) = new_campaign(&req).unwrap();
    assert_eq!(id.len(), 36);
    assert_eq!(rows[0].campaign_id, id);
}

#[test]
fn detail_counts_operators_and_defaults_visitors() {
    let t = Timestamp { secs: 0, nanos: 0 };
    let c = Campaign {
        uuid: "u".to_string(),
        slug: "s".to_string(),
        message: "m".to_string(),
        name: "n".to_string(),
        created_at: t,
        updated_at: t,
    };
    let ops = vec![
        CampaignOperator { id: "a".to_string(), grade: 1 },
        CampaignOperator { id: "b".to_string(), grade: 2 },
    ];
    let d = campaign_detail(c, ops, None);
    assert_eq!(d.visitor_total, 0);
    assert_eq!(d.operator_total, 2);
    assert_eq!(d.slug, "s");
}

#[test]
fn claims_expire_a_day_later() {
    let c = Claims::for_user("user-1".to_string(), 1_700_000_000);
    assert_eq!(c.exp, 1_700_086_400);
    assert_eq!(c.userid, "user-1");
    assert_eq!(SESSION_SECONDS, 86_400);
    assert_eq!(Claims::for_user("u".to_string(), -200_000).exp, 0);
    assert_eq!(Claims::for_user("u".to_string(), i64::MAX).exp as u128, (i64::MAX as u128).min(usize::MAX as u128));
}

#[test]
fn envelopes() {
    let ok = BasicResponse::succeeded("done".to_string());
    assert!(ok.success);
    let bad = BasicResponse::failed("no".to_string());
    assert!(!bad.success);
    assert_eq!(bad.message, "no");
}
