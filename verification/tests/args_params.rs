//! Command-line reading: the key-value map, the parameter set built
//! from it, and every fault message.

use f5rail::agent::bat::Args;
use f5rail::fixed::SCALE;
use f5rail::jww::param::{Func, Param as JwwParam, Tc, TcFunc};
use f5rail::transition::curve::{Diminish, Radius, Subtension};
use f5rail::transition::param::Param;

const M: i64 = SCALE;

fn arg_strings(v: &[&str]) -> Vec<String> {
    v.iter().map(|s| s.to_string()).collect()
}

#[test]
fn parse_command_line() {
    let args = arg_strings(&[
        "transition.exe",
        "/TRANSITION:1",
        "/R0:1.1",
        "/R1:2",
        "/TCL:3",
        "/TEMP:./JWC_TEMP.TXT",
    ]);
    let args = Args::parse(&args);
    assert_eq!(args.get_str("TEMP").unwrap(), "./JWC_TEMP.TXT");
    let transition = args.get("TRANSITION").unwrap();
    let param = Param::parse(&transition, &args).unwrap();
    assert!(matches!(param.diminish, Diminish::Sine));
    assert_eq!(param.k0.r(), Some(Radius(M + M / 10)));
    assert_eq!(param.k1.r(), Some(Radius(2 * M)));
    assert_eq!(param.tcl, Subtension(3 * M));
}

#[test]
fn only_the_length_is_required() {
    let args = arg_strings(&["transition.exe", "/TRANSITION:1", "/TCL:3", "/TEMP:./JWC_TEMP.TXT"]);
    let args = Args::parse(&args);
    let transition = args.get("TRANSITION").unwrap();
    let param = Param::parse(&transition, &args).unwrap();
    assert!(matches!(param.diminish, Diminish::Sine));
    assert!(param.k0.is_straight());
    assert!(param.k1.is_straight());
    assert_eq!(param.tcl, Subtension(3 * M));
}

#[test]
fn clothoid_can_be_chosen() {
    let args = arg_strings(&["transition.exe", "/TRANSITION:2", "/TCL:3", "/TEMP:./JWC_TEMP.TXT"]);
    let args = Args::parse(&args);
    let transition = args.get("TRANSITION").unwrap();
    let param = Param::parse(&transition, &args).unwrap();
    assert!(matches!(param.diminish, Diminish::Linear));
}

#[test]
fn wrong_diminish_value_is_an_error() {
    let args = arg_strings(&["transition.exe", "/TRANSITION:0", "/TCL:3", "/TEMP:./JWC_TEMP.TXT"]);
    let args = Args::parse(&args);
    let transition = args.get("TRANSITION").unwrap();
    let e = Param::parse(&transition, &args).unwrap_err();
    assert_eq!(e.message(), "緩和曲線関数に正しい値を入力してください");
}

#[test]
fn missing_length_is_an_error() {
    let args = arg_strings(&["transition.exe", "/TRANSITION:1", "/TEMP:./JWC_TEMP.TXT"]);
    let args = Args::parse(&args);
    let transition = args.get("TRANSITION").unwrap();
    let e = Param::parse(&transition, &args).unwrap_err();
    assert_eq!(e.message(), "TCLを指定してください");
}

#[test]
fn zero_or_negative_length_is_an_error() {
    for bad in ["0", "-1"] {
        let args: Vec<String> = arg_strings(&[
            "transition.exe",
            "/TRANSITION:1",
            "/TEMP:./JWC_TEMP.TXT",
        ]);
        let mut args = args;
        args.push(format!("/TCL:{bad}"));
        let args = Args::parse(&args);
        let transition = args.get("TRANSITION").unwrap();
        let e = Param::parse(&transition, &args).unwrap_err();
        assert_eq!(e.message(), "TCLに0より大きい値を入力してください");
    }
}

#[test]
fn textual_radius_is_an_error() {
    let args = arg_strings(&[
        "transition.exe",
        "/TRANSITION:1",
        "/R0:abc",
        "/TCL:3",
        "/TEMP:./JWC_TEMP.TXT",
    ]);
    let args = Args::parse(&args);
    let transition = args.get("TRANSITION").unwrap();
    let e = Param::parse(&transition, &args).unwrap_err();
    assert_eq!(e.message(), "R0を数値で入力してください");
}

#[test]
fn zero_radius_is_an_error() {
    for (key, arg) in [("R0", "/R0:0"), ("R1", "/R1:0")] {
        let args = arg_strings(&["transition.exe", "/TRANSITION:1", arg, "/TCL:3"]);
        let args = Args::parse(&args);
        let transition = args.get("TRANSITION").unwrap();
        let e = Param::parse(&transition, &args).unwrap_err();
        assert_eq!(e.message(), format!("{key}に0を指定できません"));
    }
}

#[test]
fn oversized_radius_is_an_error() {
    let args = arg_strings(&[
        "transition.exe",
        "/TRANSITION:1",
        "/R0:99999999999",
        "/TCL:3",
    ]);
    let args = Args::parse(&args);
    let transition = args.get("TRANSITION").unwrap();
    let e = Param::parse(&transition, &args).unwrap_err();
    assert_eq!(e.message(), "R0に指定できない値です");
}

#[test]
fn later_duplicate_keys_win() {
    let args = arg_strings(&["/TCL:3", "/TCL:7"]);
    let args = Args::parse(&args);
    assert_eq!(args.tcl().unwrap(), 7 * M);
}

#[test]
fn param_parse_command_line() {
    let v = arg_strings(&[
        "transition.exe",
        "/FUNC:sin",
        "/R1:1",
        "/R2:2",
        "/TCL:3",
        "/DX:4",
        "/FILE:./JWC_TEMP.TXT",
    ]);
    let param = JwwParam::parse(&v).unwrap();
    assert_eq!(param.file, "./JWC_TEMP.TXT");
    let Func::Tc(tc) = param.func;
    let tc: Tc = tc.unwrap();
    assert!(matches!(tc.func, TcFunc::Sin));
    assert_eq!(tc.r1, Some(1 * M));
    assert_eq!(tc.r2, Some(2 * M));
    assert_eq!(tc.tcl, 3 * M);
    assert_eq!(tc.dx, 4 * M);
}

#[test]
fn param_defaults_and_faults() {
    // everything but the length may be left out
    let v = arg_strings(&["transition.exe", "/FUNC:sin", "/TCL:3", "/FILE:./JWC_TEMP.TXT"]);
    let param = JwwParam::parse(&v).unwrap();
    let Func::Tc(tc) = param.func;
    let tc = tc.unwrap();
    assert_eq!(tc.r1, None);
    assert_eq!(tc.r2, None);
    assert_eq!(tc.dx, M / 10);

    // the file is required
    let v = arg_strings(&["transition.exe", "/FUNC:sin"]);
    let e = JwwParam::parse(&v).unwrap_err();
    assert_eq!(e.message(), "FILEを指定してください");

    // so is the function
    let v = arg_strings(&["transition.exe", "/FILE:./JWC_TEMP.TXT"]);
    let e = JwwParam::parse(&v).unwrap_err();
    assert_eq!(e.message(), "FUNCを指定してください");

    // and it must name a known one
    let v = arg_strings(&["transition.exe", "/FUNC:cos", "/FILE:./JWC_TEMP.TXT"]);
    let e = JwwParam::parse(&v).unwrap_err();
    assert_eq!(e.message(), "FUNCの値が不正です");

    // the length must be a whole number of meters
    let v = arg_strings(&["transition.exe", "/FUNC:sin", "/TCL:2.5", "/FILE:./JWC_TEMP.TXT"]);
    let param = JwwParam::parse(&v).unwrap();
    let Func::Tc(tc) = param.func;
    let e = tc.unwrap_err();
    assert_eq!(e.message(), "TCLを整数で入力してください");

    // and it must be given
    let v = arg_strings(&["transition.exe", "/FUNC:linear", "/FILE:./JWC_TEMP.TXT"]);
    let param = JwwParam::parse(&v).unwrap();
    let Func::Tc(tc) = param.func;
    let e = tc.unwrap_err();
    assert_eq!(e.message(), "TCLを指定してください");
}

#[test]
fn tc_func_names() {
    assert!(matches!(TcFunc::parse("sin"), Some(TcFunc::Sin)));
    assert!(matches!(TcFunc::parse("linear"), Some(TcFunc::Linear)));
    assert!(TcFunc::parse("tan").is_none());
    assert_eq!(TcFunc::Sin.to_string(), "サイン半波長逓減");
    assert_eq!(TcFunc::Linear.to_string(), "直線逓減");
}
