//! End-to-end tests of the document interpretation: whole documents in,
//! panels or typed failures out.

use aoi_panel::model::{ParseError, Timestamp};
use aoi_panel::panel::parse_xml;

fn minimal_aoi_pass() -> String {
    String::from(
        "<LogInfo>\
           <GlobalInformation>\
             <Program><InspectionPlanName>PLAN1</InspectionPlanName></Program>\
             <Inspection><Date><End>20240315</End></Date><Time><End>101112</End></Time></Inspection>\
           </GlobalInformation>\
           <PCBInformation>\
             <SinglePCB><Barcode>SN001</Barcode><Result>PASS</Result></SinglePCB>\
           </PCBInformation>\
         </LogInfo>",
    )
}

#[test]
fn aoi_round_trip_minimal() {
    let p = parse_xml(&minimal_aoi_pass(), "LINE1").unwrap();
    assert_eq!(p.program, "PLAN1");
    assert_eq!(p.station, "LINE1_AOI_AXI");
    assert_eq!(p.operator, "");
    assert_eq!(
        p.inspection_time,
        Timestamp { year: 2024, month: 3, day: 15, hour: 10, minute: 11, second: 12 }
    );
    assert_eq!(p.repair_time, Timestamp { year: 1970, month: 1, day: 1, hour: 0, minute: 0, second: 0 });
    assert_eq!(p.boards.len(), 1);
    assert_eq!(p.boards[0].serial, "SN001");
    assert_eq!(p.boards[0].result, "PASS");
    assert_eq!(p.boards[0].position, 1);
    assert!(p.boards[0].failures.is_empty());
    assert!(p.boards[0].pseudo_failures.is_empty());
}

#[test]
fn repair_pseudo_window() {
    let doc = "<LogInfo>\
        <GlobalInformation>\
          <Program><InspectionPlanName>PLAN2</InspectionPlanName></Program>\
          <Inspection><Date><End>20240316</End></Date><Time><End>080000</End></Time></Inspection>\
          <Repair>\
            <OperatorName>kovacs</OperatorName>\
            <Date><End>20240316</End></Date><Time><End>120000</End></Time>\
          </Repair>\
        </GlobalInformation>\
        <PCBInformation>\
          <SinglePCB><Barcode>SN001</Barcode><Result>FAIL</Result></SinglePCB>\
        </PCBInformation>\
        <ComponentInformation>\
          <Window><WinID>C12-1</WinID><PCBNumber>0</PCBNumber>\
            <Result><ErrorDescription>Pszeudohiba</ErrorDescription></Result></Window>\
        </ComponentInformation>\
      </LogInfo>";
    let p = parse_xml(doc, "LINE1").unwrap();
    assert_eq!(p.station, "LINE1_HARAN");
    assert_eq!(p.operator, "KOVACS");
    assert_eq!(
        p.repair_time,
        Timestamp { year: 2024, month: 3, day: 16, hour: 12, minute: 0, second: 0 }
    );
    assert_eq!(p.boards.len(), 1);
    assert_eq!(p.boards[0].pseudo_failures, vec!["C12".to_string()]);
    assert!(p.boards[0].failures.is_empty());
}

#[test]
fn missing_global_information_fails() {
    let doc = "<LogInfo>\
        <PCBInformation>\
          <SinglePCB><Barcode>SN001</Barcode><Result>PASS</Result></SinglePCB>\
        </PCBInformation>\
      </LogInfo>";
    assert_eq!(parse_xml(doc, "L"), Err(ParseError::MissingMandatorySection));
}

#[test]
fn empty_inspection_date_fails_timestamps() {
    let doc = "<LogInfo>\
        <GlobalInformation>\
          <Program><InspectionPlanName>PLAN1</InspectionPlanName></Program>\
          <Inspection><Date><End></End></Date><Time><End>101112</End></Time></Inspection>\
        </GlobalInformation>\
      </LogInfo>";
    assert_eq!(parse_xml(doc, "L"), Err(ParseError::InvalidTimestampCombination));
}

#[test]
fn absent_inspection_section_fails_timestamps() {
    let doc = "<LogInfo>\
        <GlobalInformation>\
          <Program><InspectionPlanName>PLAN1</InspectionPlanName></Program>\
        </GlobalInformation>\
      </LogInfo>";
    assert_eq!(parse_xml(doc, "L"), Err(ParseError::InvalidTimestampCombination));
}

#[test]
fn unparsable_inspection_date_fails_timestamps() {
    // A month 13 does not parse; the timestamp falls back to the epoch.
    let doc = "<LogInfo>\
        <GlobalInformation>\
          <Program><InspectionPlanName>PLAN1</InspectionPlanName></Program>\
          <Inspection><Date><End>20241335</End></Date><Time><End>101112</End></Time></Inspection>\
        </GlobalInformation>\
      </LogInfo>";
    assert_eq!(parse_xml(doc, "L"), Err(ParseError::InvalidTimestampCombination));
}

#[test]
fn empty_program_fails_mandatory_field() {
    let doc = "<LogInfo>\
        <GlobalInformation>\
          <Program><InspectionPlanName></InspectionPlanName></Program>\
          <Inspection><Date><End>20240315</End></Date><Time><End>101112</End></Time></Inspection>\
        </GlobalInformation>\
      </LogInfo>";
    assert_eq!(parse_xml(doc, "L"), Err(ParseError::MissingMandatoryField));
}

#[test]
fn blank_barcode_fails_mandatory_field() {
    let doc = "<LogInfo>\
        <GlobalInformation>\
          <Program><InspectionPlanName>P</InspectionPlanName></Program>\
          <Inspection><Date><End>20240315</End></Date><Time><End>101112</End></Time></Inspection>\
        </GlobalInformation>\
        <PCBInformation>\
          <SinglePCB><Barcode></Barcode><Result>PASS</Result></SinglePCB>\
        </PCBInformation>\
      </LogInfo>";
    assert_eq!(parse_xml(doc, "L"), Err(ParseError::MissingMandatoryField));
}

#[test]
fn declared_slot_without_entry_is_inconsistent() {
    // Two children are declared, but only one is a SinglePCB: the second
    // slot stays blank and the post-check refuses the document.
    let doc = "<LogInfo>\
        <GlobalInformation>\
          <Program><InspectionPlanName>P</InspectionPlanName></Program>\
          <Inspection><Date><End>20240315</End></Date><Time><End>101112</End></Time></Inspection>\
        </GlobalInformation>\
        <PCBInformation>\
          <SinglePCB><Barcode>SN001</Barcode><Result>PASS</Result></SinglePCB>\
          <SomethingElse></SomethingElse>\
        </PCBInformation>\
      </LogInfo>";
    assert_eq!(parse_xml(doc, "L"), Err(ParseError::InconsistentBoardRecord));
}

#[test]
fn not_xml_fails_syntax() {
    assert_eq!(parse_xml("this is no xml", "L"), Err(ParseError::XmlSyntax));
}

#[test]
fn no_pcb_information_yields_zero_boards() {
    let doc = "<LogInfo>\
        <GlobalInformation>\
          <Program><InspectionPlanName>P</InspectionPlanName></Program>\
          <Inspection><Date><End>20240315</End></Date><Time><End>101112</End></Time></Inspection>\
        </GlobalInformation>\
      </LogInfo>";
    let p = parse_xml(doc, "L").unwrap();
    assert!(p.boards.is_empty());
}

fn aoi_three_boards(results: [&str; 3]) -> String {
    format!(
        "<LogInfo>\
          <GlobalInformation>\
            <Program><InspectionPlanName>P</InspectionPlanName></Program>\
            <Inspection><Date><End>20240315</End></Date><Time><End>101112</End></Time></Inspection>\
          </GlobalInformation>\
          <PCBInformation>\
            <SinglePCB><Barcode>SN-B</Barcode><Result>{}</Result></SinglePCB>\
            <SinglePCB><Barcode>SN-C</Barcode><Result>{}</Result></SinglePCB>\
            <SinglePCB><Barcode>SN-A</Barcode><Result>{}</Result></SinglePCB>\
          </PCBInformation>\
        </LogInfo>",
        results[0], results[1], results[2]
    )
}

#[test]
fn boards_sorted_by_serial_and_renumbered() {
    let p = parse_xml(&aoi_three_boards(["PASS", "PASS", "PASS"]), "L").unwrap();
    assert_eq!(p.boards.len(), 3);
    let serials: Vec<&str> = p.boards.iter().map(|b| b.serial.as_str()).collect();
    assert_eq!(serials, vec!["SN-A", "SN-B", "SN-C"]);
    let positions: Vec<usize> = p.boards.iter().map(|b| b.position).collect();
    assert_eq!(positions, vec![1, 2, 3]);
}

#[test]
fn all_pass_skips_malformed_component_information() {
    // Every board passes, so the defect windows are never scanned: the
    // malformed window (all fields empty) cannot fail the document.
    let doc = "<LogInfo>\
        <GlobalInformation>\
          <Program><InspectionPlanName>P</InspectionPlanName></Program>\
          <Inspection><Date><End>20240315</End></Date><Time><End>101112</End></Time></Inspection>\
        </GlobalInformation>\
        <PCBInformation>\
          <SinglePCB><Barcode>SN001</Barcode><Result>PASS</Result></SinglePCB>\
        </PCBInformation>\
        <ComponentInformation>\
          <Window><WinID></WinID><PCBNumber></PCBNumber></Window>\
        </ComponentInformation>\
      </LogInfo>";
    let p = parse_xml(doc, "L").unwrap();
    assert!(p.boards[0].failures.is_empty());
}

fn aoi_failed_with_windows(windows: &str) -> String {
    format!(
        "<LogInfo>\
          <GlobalInformation>\
            <Program><InspectionPlanName>P</InspectionPlanName></Program>\
            <Inspection><Date><End>20240315</End></Date><Time><End>101112</End></Time></Inspection>\
          </GlobalInformation>\
          <PCBInformation>\
            <SinglePCB><Barcode>SN001</Barcode><Result>FAIL</Result></SinglePCB>\
          </PCBInformation>\
          <ComponentInformation>{}</ComponentInformation>\
        </LogInfo>",
        windows
    )
}

#[test]
fn aoi_window_identifiers_deduplicated_and_stripped() {
    // U5-2 and U5-3 both normalize to U5 and land once; R9 has no
    // separator and stays whole.
    let windows = "<Window><WinID>U5-2</WinID><PCBNumber>1</PCBNumber>\
           <Analysis><Result>3</Result></Analysis></Window>\
         <Window><WinID>U5-3</WinID><PCBNumber>1</PCBNumber>\
           <Analysis><Result>3</Result></Analysis></Window>\
         <Window><WinID>R9</WinID><PCBNumber>1</PCBNumber>\
           <Analysis><Result>3</Result></Analysis></Window>";
    let p = parse_xml(&aoi_failed_with_windows(windows), "L").unwrap();
    assert_eq!(p.boards[0].failures, vec!["U5".to_string(), "R9".to_string()]);
    assert!(p.boards[0].pseudo_failures.is_empty());
}

#[test]
fn aoi_board_number_zero_fails() {
    let windows = "<Window><WinID>U5-2</WinID><PCBNumber>0</PCBNumber>\
           <Analysis><Result>3</Result></Analysis></Window>";
    assert_eq!(
        parse_xml(&aoi_failed_with_windows(windows), "L"),
        Err(ParseError::OutOfRangeBoardReference)
    );
}

#[test]
fn aoi_board_number_past_end_fails() {
    let windows = "<Window><WinID>U5-2</WinID><PCBNumber>2</PCBNumber>\
           <Analysis><Result>3</Result></Analysis></Window>";
    assert_eq!(
        parse_xml(&aoi_failed_with_windows(windows), "L"),
        Err(ParseError::OutOfRangeBoardReference)
    );
}

#[test]
fn aoi_unparsable_board_number_fails() {
    let windows = "<Window><WinID>U5-2</WinID><PCBNumber>x7</PCBNumber>\
           <Analysis><Result>3</Result></Analysis></Window>";
    assert_eq!(
        parse_xml(&aoi_failed_with_windows(windows), "L"),
        Err(ParseError::UnparsableNumericReference)
    );
}

#[test]
fn aoi_result_zero_window_is_skipped_before_parsing() {
    // A window whose code reads 0 is no defect: its board reference is
    // never even parsed.
    let windows = "<Window><WinID>U5-2</WinID><PCBNumber>nonsense</PCBNumber>\
           <Analysis><Result>0</Result></Analysis></Window>";
    let p = parse_xml(&aoi_failed_with_windows(windows), "L").unwrap();
    assert!(p.boards[0].failures.is_empty());
}

#[test]
fn aoi_window_with_empty_field_fails() {
    let windows = "<Window><WinID>U5-2</WinID><PCBNumber>1</PCBNumber></Window>";
    assert_eq!(
        parse_xml(&aoi_failed_with_windows(windows), "L"),
        Err(ParseError::MissingMandatoryField)
    );
}

fn repair_with_windows(windows: &str) -> String {
    format!(
        "<LogInfo>\
          <GlobalInformation>\
            <Program><InspectionPlanName>P</InspectionPlanName></Program>\
            <Inspection><Date><End>20240315</End></Date><Time><End>101112</End></Time></Inspection>\
            <Repair>\
              <OperatorName>smith</OperatorName>\
              <Date><End>20240315</End></Date><Time><End>120000</End></Time>\
            </Repair>\
          </GlobalInformation>\
          <PCBInformation>\
            <SinglePCB><Barcode>SN001</Barcode><Result>PASS</Result></SinglePCB>\
          </PCBInformation>\
          <ComponentInformation>{}</ComponentInformation>\
        </LogInfo>",
        windows
    )
}

#[test]
fn repair_scans_windows_even_when_all_pass() {
    let windows = "<Window><WinID>D4-1</WinID><PCBNumber>0</PCBNumber>\
           <Result><ErrorDescription>Forrashiba</ErrorDescription></Result></Window>";
    let p = parse_xml(&repair_with_windows(windows), "L").unwrap();
    assert_eq!(p.boards[0].failures, vec!["D4".to_string()]);
}

#[test]
fn repair_duplicate_window_identifier_kept_once() {
    let windows = "<Window><WinID>C3-1</WinID><PCBNumber>0</PCBNumber>\
           <Result><ErrorDescription>Pszeudohiba</ErrorDescription></Result></Window>\
         <Window><WinID>C3-2</WinID><PCBNumber>0</PCBNumber>\
           <Result><ErrorDescription>Pszeudohiba</ErrorDescription></Result></Window>";
    let p = parse_xml(&repair_with_windows(windows), "L").unwrap();
    assert_eq!(p.boards[0].pseudo_failures, vec!["C3".to_string()]);
}

#[test]
fn repair_out_of_range_board_is_ignored() {
    let windows = "<Window><WinID>C3-1</WinID><PCBNumber>7</PCBNumber>\
           <Result><ErrorDescription>Forrashiba</ErrorDescription></Result></Window>";
    let p = parse_xml(&repair_with_windows(windows), "L").unwrap();
    assert!(p.boards[0].failures.is_empty());
    assert!(p.boards[0].pseudo_failures.is_empty());
}

#[test]
fn repair_unparsable_board_number_fails() {
    let windows = "<Window><WinID>C3-1</WinID><PCBNumber>three</PCBNumber>\
           <Result><ErrorDescription>Forrashiba</ErrorDescription></Result></Window>";
    assert_eq!(
        parse_xml(&repair_with_windows(windows), "L"),
        Err(ParseError::UnparsableNumericReference)
    );
}

#[test]
fn repair_window_without_nested_code_fails() {
    // The Result child exists but carries no ErrorDescription: the code
    // stays empty and the window is malformed.
    let windows = "<Window><WinID>C3-1</WinID><PCBNumber>0</PCBNumber>\
           <Result></Result></Window>";
    assert_eq!(
        parse_xml(&repair_with_windows(windows), "L"),
        Err(ParseError::MissingMandatoryField)
    );
}

#[test]
fn repair_gigantic_board_number_is_unparsable() {
    // 39 digits cannot fit a machine word: the reference is refused, not
    // wrapped.
    let windows = "<Window><WinID>C3-1</WinID>\
           <PCBNumber>340282366920938463463374607431768211456</PCBNumber>\
           <Result><ErrorDescription>Forrashiba</ErrorDescription></Result></Window>";
    assert_eq!(
        parse_xml(&repair_with_windows(windows), "L"),
        Err(ParseError::UnparsableNumericReference)
    );
}

#[test]
fn repair_missing_repair_date_fails_timestamps() {
    let doc = "<LogInfo>\
        <GlobalInformation>\
          <Program><InspectionPlanName>P</InspectionPlanName></Program>\
          <Inspection><Date><End>20240315</End></Date><Time><End>101112</End></Time></Inspection>\
          <Repair><OperatorName>smith</OperatorName></Repair>\
        </GlobalInformation>\
      </LogInfo>";
    assert_eq!(parse_xml(doc, "L"), Err(ParseError::InvalidTimestampCombination));
}

#[test]
fn last_field_assignment_wins() {
    let doc = "<LogInfo>\
        <GlobalInformation>\
          <Program><InspectionPlanName>P</InspectionPlanName></Program>\
          <Inspection><Date><End>20240315</End></Date><Time><End>101112</End></Time></Inspection>\
        </GlobalInformation>\
        <PCBInformation>\
          <SinglePCB><Barcode>FIRST</Barcode><Barcode>SECOND</Barcode>\
            <Result>PASS</Result></SinglePCB>\
        </PCBInformation>\
      </LogInfo>";
    let p = parse_xml(doc, "L").unwrap();
    assert_eq!(p.boards[0].serial, "SECOND");
}
