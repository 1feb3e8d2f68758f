use awl::cli::{Ec2TypesArgs, Ec2TypesSort, Globals, OutputFormat, StubArgs};
use awl::measure::{finite, is_less, whole_i64, Measure};
use awl::output::{emit, Output};
use awl::services::ec2::{
    check_prices, console_row, contains_casefold, describe_plan, dry_run, image_rows, instance_arg,
    instance_rows, matches_type_filters, optional_contains_casefold, price_region, reboot_rows,
    required_instance_ids, ssh_args, ssh_result, state_changes, state_plan, storage_summary,
    tag_value, type_row, types, Ec2TypeRecord, ImageInfo, InstanceInfo, Session, StateChange,
};

fn text(value: &str) -> Option<String> {
    Some(value.to_owned())
}

fn globals() -> Globals {
    Globals {
        profile: None,
        region: None,
        endpoint_url: None,
        output: Some(OutputFormat::Jsonl),
        field: None,
        no_color: false,
        quiet: false,
        verbose: 0,
        role_arn: None,
        role_session_name: None,
        mfa_token: None,
        retry_mode: None,
        max_attempts: None,
    }
}

fn shown(output: Output) -> String {
    emit(&globals(), false, output).unwrap()
}

fn stub(values: &[&str]) -> StubArgs {
    StubArgs {
        args: values.iter().map(|value| (*value).to_owned()).collect(),
    }
}

fn measure(value: f64) -> Measure {
    let written = serde_json::Number::from_f64(value).unwrap();
    Measure::new(value.to_bits(), written, value.to_string()).unwrap()
}

fn record(instance_type: &str) -> Ec2TypeRecord {
    Ec2TypeRecord {
        instance_type: instance_type.to_owned(),
        family: None,
        pretty_name: None,
        vcpu: None,
        memory_gib: None,
        arch: Vec::new(),
        generation: None,
        network_performance: None,
        processor: None,
        clock_speed_ghz: None,
        gpu: None,
        gpu_model: None,
        gpu_memory_gib: None,
        fpga: None,
        ebs_optimized: None,
        ebs_baseline_bandwidth_mbps: None,
        ebs_baseline_iops: None,
        ebs_max_bandwidth_mbps: None,
        ebs_max_iops: None,
        enhanced_networking: None,
        vpc_max_enis: None,
        vpc_ips_per_eni: None,
        storage_devices: None,
        storage_size_gb: None,
        storage_ssd: None,
        storage_nvme: None,
        linux_on_demand: Vec::new(),
    }
}

fn nano() -> Ec2TypeRecord {
    let mut nano = record("t4g.nano");
    nano.family = text("General purpose");
    nano.processor = text("AWS Graviton2");
    nano.vcpu = Some(2);
    nano.memory_gib = Some(measure(0.5));
    nano.arch = vec!["arm64".to_owned()];
    nano.generation = text("current");
    nano.linux_on_demand = vec![("us-east-1".to_owned(), measure(0.0042))];
    nano
}

fn big() -> Ec2TypeRecord {
    let mut big = record("p3.2xlarge");
    big.family = text("GPU instance");
    big.vcpu = Some(8);
    big.memory_gib = Some(measure(61.0));
    big.arch = vec!["i386".to_owned(), "x86_64".to_owned()];
    big.generation = text("previous");
    big.gpu = Some(measure(1.0));
    big.linux_on_demand = vec![
        ("eu-west-1".to_owned(), measure(3.0)),
        ("us-east-1".to_owned(), measure(3.06)),
    ];
    big
}

fn args() -> Ec2TypesArgs {
    Ec2TypesArgs {
        query: None,
        arch: None,
        family: None,
        current: false,
        gpu: false,
        min_vcpu: None,
        max_vcpu: None,
        min_memory: None,
        max_memory: None,
        sort: Ec2TypesSort::Type,
        limit: None,
        wide: false,
        price_region: None,
        no_price: true,
        all_prices: false,
    }
}

fn listed(args: &Ec2TypesArgs, catalog: &Vec<Ec2TypeRecord>) -> Vec<String> {
    let mut given = globals();
    given.field = None;
    match types(&given, args, None, catalog).unwrap() {
        Output::Many(rows) => rows
            .iter()
            .map(|row| match row {
                awl::json::Json::Object(fields) => {
                    awl::output::plain_value(fields.get("instance_type").unwrap())
                }
                other => panic!("{other:?}"),
            })
            .collect(),
        other => panic!("{other:?}"),
    }
}

#[test]
fn numbers_are_known_by_their_bits() {
    for (a, b) in [
        (0.0, 1.0),
        (-1.0, 0.0),
        (-2.5, -2.0),
        (1e-300, 1e300),
        (-f64::MAX, f64::MAX),
        (5e-324, 1e-323),
    ] {
        assert!(is_less(a.to_bits(), b.to_bits()));
        assert!(!is_less(b.to_bits(), a.to_bits()));
    }
    assert!(!is_less((-0.0f64).to_bits(), 0.0f64.to_bits()));
    assert!(!is_less(0.0f64.to_bits(), (-0.0f64).to_bits()));
    assert!(finite(f64::MAX.to_bits()));
    assert!(!finite(f64::INFINITY.to_bits()));
    assert!(!finite(f64::NAN.to_bits()));
}

#[test]
fn whole_numbers_are_found() {
    for value in [0.0, -0.0, 1.0, -7.0, 4096.0, 9007199254740993.0, -9223372036854775808.0] {
        assert_eq!(whole_i64(f64::to_bits(value)), Some(value as i64));
    }
    assert_eq!(whole_i64(9223372036854775808.0f64.to_bits()), Some(i64::MAX));
    for value in [0.5, -1.25, 1e19, -1e19, 5e-324, f64::MAX] {
        assert_eq!(whole_i64(f64::to_bits(value)), None);
    }
}

#[test]
fn a_measure_is_finite() {
    let one = serde_json::Number::from(1);
    assert!(Measure::new(f64::NAN.to_bits(), one.clone(), String::new()).is_none());
    let kept = Measure::new(2.5f64.to_bits(), serde_json::Number::from_f64(2.5).unwrap(), "x".to_owned());
    let kept = kept.unwrap();
    assert_eq!(kept.bits(), 2.5f64.to_bits());
    assert_eq!(kept.text(), "x");
    assert_eq!(kept.json().compact(), "2.5");
}

#[test]
fn text_is_searched_in_lower_case() {
    assert!(contains_casefold("GPU Instance", "u in"));
    assert!(!contains_casefold("gpu", "GPU"));
    assert!(optional_contains_casefold(Some("ÀB"), "à"));
    assert!(!optional_contains_casefold(None, ""));
}

#[test]
fn filters_are_applied_together() {
    let (nano, big) = (nano(), big());
    let mut given = args();
    given.query = text("GRAVITON");
    assert!(matches_type_filters(&nano, &given));
    assert!(!matches_type_filters(&big, &given));
    given = args();
    given.arch = text("X86_64");
    assert!(!matches_type_filters(&nano, &given));
    assert!(matches_type_filters(&big, &given));
    given.arch = text("x86");
    assert!(!matches_type_filters(&big, &given));
    given = args();
    given.family = text("gpu");
    assert!(!matches_type_filters(&nano, &given));
    assert!(matches_type_filters(&big, &given));
    given = args();
    given.current = true;
    assert!(matches_type_filters(&nano, &given));
    assert!(!matches_type_filters(&big, &given));
    given = args();
    given.gpu = true;
    assert!(!matches_type_filters(&nano, &given));
    assert!(matches_type_filters(&big, &given));
    given = args();
    given.min_vcpu = Some(3);
    assert!(!matches_type_filters(&nano, &given));
    given.max_vcpu = Some(8);
    assert!(matches_type_filters(&big, &given));
    assert!(!matches_type_filters(&record("x"), &given));
    given = args();
    given.min_memory = Some(0.5f64.to_bits());
    given.max_memory = Some(60.9f64.to_bits());
    assert!(matches_type_filters(&nano, &given));
    assert!(!matches_type_filters(&big, &given));
    assert!(!matches_type_filters(&record("x"), &given));
}

#[test]
fn a_bound_that_is_no_number_bounds_nothing() {
    let mut given = args();
    given.min_memory = Some(f64::NAN.to_bits());
    given.max_memory = Some(f64::NAN.to_bits());
    assert!(matches_type_filters(&nano(), &given));
    given.max_memory = Some(f64::INFINITY.to_bits());
    assert!(matches_type_filters(&record("x"), &given));
}

#[test]
fn types_are_sorted() {
    let catalog = vec![record("z"), nano(), big(), record("a")];
    let mut given = args();
    assert_eq!(listed(&given, &catalog), ["a", "p3.2xlarge", "t4g.nano", "z"]);
    given.sort = Ec2TypesSort::Vcpu;
    assert_eq!(listed(&given, &catalog), ["a", "z", "t4g.nano", "p3.2xlarge"]);
    given.sort = Ec2TypesSort::Memory;
    assert_eq!(listed(&given, &catalog), ["a", "z", "t4g.nano", "p3.2xlarge"]);
    given.sort = Ec2TypesSort::Price;
    assert_eq!(listed(&given, &catalog), ["t4g.nano", "p3.2xlarge", "a", "z"]);
    given.price_region = text("eu-west-1");
    assert_eq!(listed(&given, &catalog), ["p3.2xlarge", "a", "t4g.nano", "z"]);
    given.limit = Some(1);
    assert_eq!(listed(&given, &catalog), ["p3.2xlarge"]);
    given.limit = Some(0);
    assert!(listed(&given, &catalog).is_empty());
}

#[test]
fn a_type_is_shown() {
    let mut given = args();
    assert_eq!(
        type_row(&nano(), &given, "us-east-1").compact(),
        "{\"arch\":\"arm64\",\"family\":\"General purpose\",\"generation\":\"current\",\
         \"instance_type\":\"t4g.nano\",\"memory_gib\":0.5,\"storage\":\"EBS only\",\"vcpu\":2}"
    );
    given.no_price = false;
    given.all_prices = true;
    assert_eq!(
        type_row(&big(), &given, "us-east-1").compact(),
        "{\"arch\":\"i386,x86_64\",\"family\":\"GPU instance\",\"generation\":\"previous\",\
         \"gpu\":1,\"instance_type\":\"p3.2xlarge\",\
         \"linux_on_demand\":{\"eu-west-1\":3.0,\"us-east-1\":3.06},\
         \"linux_ondemand_usd_per_hour\":3.06,\"memory_gib\":61,\"price_region\":\"us-east-1\",\
         \"storage\":\"EBS only\",\"vcpu\":8}"
    );
    given.all_prices = false;
    assert_eq!(
        type_row(&record("x"), &given, "r").compact(),
        "{\"arch\":\"\",\"instance_type\":\"x\",\"price_region\":\"r\",\"storage\":\"EBS only\"}"
    );
}

#[test]
fn a_wide_row_has_more_columns() {
    let mut given = args();
    given.wide = true;
    let mut wide = record("w");
    wide.pretty_name = text("W");
    wide.clock_speed_ghz = text("2.5 GHz");
    wide.gpu_model = text("G");
    wide.gpu_memory_gib = Some(measure(16.0));
    wide.fpga = Some(measure(0.0));
    wide.ebs_optimized = Some(true);
    wide.ebs_baseline_bandwidth_mbps = Some(measure(43.5));
    wide.ebs_baseline_iops = Some(250);
    wide.ebs_max_bandwidth_mbps = Some(measure(2085.0));
    wide.ebs_max_iops = Some(11800);
    wide.enhanced_networking = Some(false);
    wide.vpc_max_enis = Some(2);
    wide.vpc_ips_per_eni = Some(3);
    wide.processor = text("P");
    assert_eq!(
        type_row(&wide, &given, "r").compact(),
        "{\"arch\":\"\",\"clock_speed_ghz\":\"2.5 GHz\",\"ebs_baseline_bandwidth_mbps\":43.5,\
         \"ebs_baseline_iops\":250,\"ebs_max_bandwidth_mbps\":2085,\"ebs_max_iops\":11800,\
         \"ebs_optimized\":true,\"enhanced_networking\":false,\"fpga\":0,\"gpu_memory_gib\":16,\
         \"gpu_model\":\"G\",\"instance_type\":\"w\",\"pretty_name\":\"W\",\"processor\":\"P\",\
         \"storage\":\"EBS only\",\"vpc_ips_per_eni\":3,\"vpc_max_enis\":2}"
    );
}

#[test]
fn storage_is_summed_up() {
    let mut disk = record("d");
    assert_eq!(storage_summary(&disk), "EBS only");
    disk.storage_devices = Some(2);
    assert_eq!(storage_summary(&disk), "2 x unknown-size");
    disk.storage_size_gb = Some(measure(475.0));
    disk.storage_nvme = Some(true);
    disk.storage_ssd = Some(true);
    assert_eq!(storage_summary(&disk), "2 x 475 GB NVMe SSD");
    disk.storage_nvme = Some(false);
    assert_eq!(storage_summary(&disk), "2 x 475 GB SSD");
}

#[test]
fn prices_cannot_be_left_out_and_shown() {
    let mut given = args();
    given.all_prices = true;
    assert_eq!(check_prices(&given).unwrap_err().exit_code(), 2);
    let error = types(&globals(), &given, None, &Vec::new()).unwrap_err();
    assert_eq!(
        error.line(),
        "--no-price and --all-prices cannot be used together"
    );
    assert_eq!(error.exit_code(), 2);
    given.all_prices = false;
    assert!(check_prices(&given).is_ok());
}

#[test]
fn a_price_has_a_region() {
    let mut given = args();
    let mut known = globals();
    assert_eq!(price_region(&known, &given, None), "us-east-1");
    assert_eq!(price_region(&known, &given, text("v")), "v");
    known.region = text("g");
    assert_eq!(price_region(&known, &given, text("v")), "g");
    given.price_region = text("p");
    assert_eq!(price_region(&known, &given, text("v")), "p");
}

#[test]
fn requests_name_instances() {
    let plan = describe_plan(&stub(&["i-1", "--dryrun", "i-2"]));
    assert_eq!(plan.ids, vec!["i-1".to_owned(), "i-2".to_owned()]);
    assert!(plan.dry_run);
    let plan = state_plan(&stub(&["i-1", "--force"])).unwrap();
    assert!(plan.force && !plan.dry_run);
    assert!(dry_run(&stub(&["--dry-run"])));
    let error = required_instance_ids(&stub(&["--force"])).unwrap_err();
    assert_eq!(error.line(), "missing required argument <instance-id>");
    assert_eq!(instance_arg(&stub(&["i-9"])).unwrap(), "i-9");
    assert!(state_plan(&stub(&[])).is_err());
}

#[test]
fn instances_are_shown() {
    let tags = vec![
        (text("Other"), text("o")),
        (text("Name"), text("web")),
        (text("Name"), text("later")),
    ];
    assert_eq!(tag_value(&tags, "Name"), Some("web"));
    assert_eq!(tag_value(&tags, "None"), None);
    assert_eq!(tag_value(&vec![(text("Name"), None)], "Name"), None);
    let info = InstanceInfo {
        instance_id: text("i-1"),
        tags,
        state: text("running"),
        instance_type: text("t4g.nano"),
        private_ip: None,
        public_ip: None,
        az: text("us-east-1a"),
        image_id: None,
        key_name: None,
        launch_time: None,
    };
    assert_eq!(
        shown(instance_rows(&vec![info])),
        "{\"az\":\"us-east-1a\",\"image_id\":null,\"instance_id\":\"i-1\",\
         \"instance_type\":\"t4g.nano\",\"key_name\":null,\"launch_time\":null,\"name\":\"web\",\
         \"private_ip\":null,\"public_ip\":null,\"state\":\"running\"}\n"
    );
}

#[test]
fn changes_and_images_are_shown() {
    let change = StateChange {
        instance_id: text("i"),
        previous_state: text("stopped"),
        current_state: None,
    };
    assert_eq!(
        shown(state_changes(&vec![change])),
        "{\"current_state\":null,\"instance_id\":\"i\",\"previous_state\":\"stopped\"}\n"
    );
    assert_eq!(
        shown(reboot_rows(&vec!["i".to_owned()])),
        "{\"action\":\"reboot\",\"instance_id\":\"i\"}\n"
    );
    assert_eq!(
        shown(console_row(Some("i"), None, Some("o"))),
        "{\"instance_id\":\"i\",\"output\":\"o\",\"timestamp\":null}\n"
    );
    let image = ImageInfo {
        image_id: text("ami"),
        name: None,
        description: None,
        state: text("available"),
        owner_id: None,
        creation_date: None,
    };
    assert_eq!(
        shown(image_rows(&vec![image])),
        "{\"creation_date\":null,\"description\":null,\"image_id\":\"ami\",\"name\":null,\
         \"owner_id\":null,\"state\":\"available\"}\n"
    );
}

#[test]
fn a_session_is_handed_to_the_plugin() {
    let session = Session {
        session_id: text("s"),
        token: text("t"),
        stream_url: None,
    };
    let mut known = globals();
    assert_eq!(
        ssh_args(&known, "i-1", &session, None, text("eu-west-1")),
        vec![
            "{\"SessionId\":\"s\",\"StreamUrl\":null,\"TokenValue\":\"t\"}",
            "eu-west-1",
            "StartSession",
            "",
            "{\"Target\":\"i-1\"}",
            "https://ssm.eu-west-1.amazonaws.com",
        ]
    );
    known.profile = text("work");
    let words = ssh_args(&known, "i-1", &session, text("r"), text("d"));
    assert_eq!((words[1].as_str(), words[3].as_str()), ("r", "work"));
    assert!(ssh_result(None).is_ok());
    assert_eq!(
        ssh_result(Some("exit status: 1")).unwrap_err().line(),
        "aws error: session-manager-plugin exited with status exit status: 1"
    );
}
