use license_ledger::LicenseContract;
use license_ledger::LicenseError;

const ONE_DAY_NS: u64 = 24 * 60 * 60 * 1_000_000_000;

fn admin() -> String {
    "admin.near".to_string()
}

fn user_str() -> String {
    "user.near".to_string()
}

fn evm_address() -> String {
    "0x1234567890abcdef1234567890abcdef12345678".to_string()
}

#[test]
fn test_new_initializes_admin() {
    let contract = LicenseContract::new(admin());

    assert!(!contract.is_licensed(user_str(), 0));
}

#[test]
fn test_grant_license_by_admin() {
    let mut contract = LicenseContract::new(admin());

    contract.grant_license(admin(), user_str(), 30, 1_000_000_000).unwrap();

    assert!(contract.is_licensed(user_str(), 1_000_000_000));

    let expiry = contract.get_expiry(user_str());
    assert!(expiry.is_some());
    assert_eq!(expiry.unwrap(), 1_000_000_000 + 30 * ONE_DAY_NS);
}

#[test]
fn test_grant_license_to_evm_address() {
    let mut contract = LicenseContract::new(admin());

    contract.grant_license(admin(), evm_address(), 30, 1_000_000_000).unwrap();

    assert!(contract.is_licensed(evm_address(), 1_000_000_000));

    let expiry = contract.get_expiry(evm_address());
    assert!(expiry.is_some());
    assert_eq!(expiry.unwrap(), 1_000_000_000 + 30 * ONE_DAY_NS);
}

#[test]
fn test_grant_license_unauthorized() {
    let mut contract = LicenseContract::new(admin());

    let result = contract.grant_license(user_str(), user_str(), 30, 0);

    assert_eq!(result, Err(LicenseError::Unauthorized));
    assert_eq!(contract.get_expiry(user_str()), None);
    assert!(!contract.is_licensed(user_str(), 0));
}

#[test]
fn test_license_expiry() {
    let initial_time = 1_000_000_000u64;
    let mut contract = LicenseContract::new(admin());

    contract.grant_license(admin(), user_str(), 1, initial_time).unwrap();
    assert!(contract.is_licensed(user_str(), initial_time));

    let after_expiry = initial_time + ONE_DAY_NS + 1;

    assert!(!contract.is_licensed(user_str(), after_expiry));

    let expiry = contract.get_expiry(user_str());
    assert!(expiry.is_some());
    assert_eq!(expiry.unwrap(), initial_time + ONE_DAY_NS);
}

#[test]
fn test_extend_license() {
    let initial_time = 1_000_000_000u64;
    let mut contract = LicenseContract::new(admin());

    contract.grant_license(admin(), user_str(), 30, initial_time).unwrap();
    let first_expiry = contract.get_expiry(user_str()).unwrap();
    assert_eq!(first_expiry, initial_time + 30 * ONE_DAY_NS);

    let halfway = initial_time + 15 * ONE_DAY_NS;
    contract.grant_license(admin(), user_str(), 30, halfway).unwrap();

    let new_expiry = contract.get_expiry(user_str()).unwrap();
    assert_eq!(new_expiry, first_expiry + 30 * ONE_DAY_NS);

    assert!(contract.is_licensed(user_str(), halfway));
}
