use mviz::errors::RosBagError;
use mviz::gps::{gga_fields, sentence_type, GpsProcessor};
use mviz::imu::ImuProcessor;
use mviz::pointcloud::{f32_bits_is_nan, field_role, FieldRole, Point, PointCloudProcessor};
use mviz::wire::{read_u32, read_u64, RosTime};

fn put_u32(out: &mut Vec<u8>, v: u32) {
    out.extend_from_slice(&v.to_le_bytes());
}

fn put_string(out: &mut Vec<u8>, s: &str) {
    put_u32(out, s.len() as u32);
    out.extend_from_slice(s.as_bytes());
}

fn header(sec: u32, nsec: u32, frame: &str) -> Vec<u8> {
    let mut out = Vec::new();
    put_u32(&mut out, 7);
    put_u32(&mut out, sec);
    put_u32(&mut out, nsec);
    put_string(&mut out, frame);
    out
}

fn put_field(out: &mut Vec<u8>, name: &str, offset: u32) {
    put_string(out, name);
    put_u32(out, offset);
    out.push(7);
    put_u32(out, 1);
}

fn cloud(points: &[[f32; 4]], with_intensity: bool) -> Vec<u8> {
    let mut out = header(10, 20, "lidar");
    put_u32(&mut out, 1);
    put_u32(&mut out, points.len() as u32);
    put_u32(&mut out, if with_intensity { 4 } else { 3 });
    put_field(&mut out, "x", 0);
    put_field(&mut out, "y", 4);
    put_field(&mut out, "z", 8);
    if with_intensity {
        put_field(&mut out, "intensity", 12);
    }
    out.push(0);
    put_u32(&mut out, 16);
    put_u32(&mut out, 16 * points.len() as u32);
    put_u32(&mut out, 16 * points.len() as u32);
    for p in points {
        for v in p {
            out.extend_from_slice(&v.to_le_bytes());
        }
    }
    out.push(1);
    out
}

#[test]
fn test_point_default() {
    let p = Point::default();
    assert_eq!(f32::from_bits(p.x), 0.0);
    assert_eq!(f32::from_bits(p.y), 0.0);
    assert_eq!(f32::from_bits(p.z), 0.0);
}

#[test]
fn test_processor_new() {
    let proc = PointCloudProcessor::new();
    assert!(proc.frame_id.is_empty());
}

#[test]
fn test_imu_processor_new() {
    let proc = ImuProcessor::new();
    assert!(proc.frame_id.is_empty());
}

#[test]
fn test_gps_processor_new() {
    let proc = GpsProcessor::new();
    assert!(proc.frame_id.is_empty());
    assert!(proc.last_position.is_none());
}

#[test]
fn little_endian_reads() {
    let data = [1u8, 2, 3, 4, 5, 6, 7, 8];
    assert_eq!(read_u32(&data, 0), 0x0403_0201);
    assert_eq!(read_u32(&data, 4), 0x0807_0605);
    assert_eq!(read_u64(&data, 0), 0x0807_0605_0403_0201);
}

#[test]
fn nan_bits() {
    assert!(f32_bits_is_nan(f32::NAN.to_bits()));
    assert!(!f32_bits_is_nan(f32::INFINITY.to_bits()));
    assert!(!f32_bits_is_nan(1.5f32.to_bits()));
}

#[test]
fn field_roles() {
    assert_eq!(field_role("x"), FieldRole::X);
    assert_eq!(field_role("intensity"), FieldRole::Intensity);
    assert_eq!(field_role("rgb"), FieldRole::Other);
}

#[test]
fn cloud_points_with_nan_left_out() {
    let data = cloud(&[[1.0, 2.0, 3.0, 0.5], [f32::NAN, 0.0, 0.0, 1.0], [4.0, 5.0, 6.0, 0.25]], true);
    assert!(PointCloudProcessor::can_parse(&data));
    let mut proc = PointCloudProcessor::new();
    let points = proc.parse(&data).unwrap();
    assert_eq!(points.len(), 2);
    assert_eq!(f32::from_bits(points[0].x), 1.0);
    assert_eq!(f32::from_bits(points[0].intensity), 0.5);
    assert_eq!(f32::from_bits(points[1].z), 6.0);
    assert_eq!(proc.frame_id, "lidar");
    assert_eq!(proc.timestamp, RosTime { sec: 10, nsec: 20 });
}

#[test]
fn cloud_without_intensity_reads_zero() {
    let data = cloud(&[[1.0, 2.0, 3.0, 9.0], [7.0, 8.0, 9.0, 9.0]], false);
    let mut proc = PointCloudProcessor::new();
    let points = proc.parse(&data).unwrap();
    assert_eq!(points.len(), 2);
    assert_eq!(points[1].intensity, 0);
}

#[test]
fn cloud_too_short() {
    let mut proc = PointCloudProcessor::new();
    match proc.parse(&[0u8; 20]) {
        Err(RosBagError::ParseError(m)) => assert_eq!(m, "Data too short for PointCloud2"),
        _ => panic!("expected a parse error"),
    }
    assert!(proc.frame_id.is_empty());
}

#[test]
fn cloud_truncated_is_refused_by_check() {
    let mut data = cloud(&[[1.0, 2.0, 3.0, 0.5]], true);
    data.truncate(data.len() - 10);
    assert!(!PointCloudProcessor::can_parse(&data));
}

#[test]
fn imu_values() {
    let mut data = header(3, 4, "imu");
    let values: Vec<f64> = (0..40).map(|i| i as f64).collect();
    for v in &values {
        data.extend_from_slice(&v.to_le_bytes());
    }
    assert!(ImuProcessor::can_parse(&data));
    let mut proc = ImuProcessor::new();
    let d = proc.parse(&data).unwrap();
    assert_eq!(d.frame_id_len, 3);
    assert_eq!(f64::from_bits(d.orientation[3]), 3.0);
    assert_eq!(f64::from_bits(d.angular_velocity[0]), 13.0);
    assert_eq!(f64::from_bits(d.linear_acceleration[2]), 27.0);
    assert_eq!(d.timestamp, RosTime { sec: 3, nsec: 4 });
    assert_eq!(proc.frame_id, "imu");
}

#[test]
fn imu_too_short() {
    let mut proc = ImuProcessor::new();
    match proc.parse(&[0u8; 99]) {
        Err(RosBagError::ParseError(m)) => assert_eq!(m, "Data too short for Imu message"),
        _ => panic!("expected a parse error"),
    }
}

#[test]
fn nmea_sentence_and_type() {
    let mut data = header(1, 2, "gps");
    put_string(&mut data, "$GPGGA,123519,4807.038,N,01131.000,E,1,08,0.9,545.4,M,46.9,M,,*47");
    let mut proc = GpsProcessor::new();
    let s = proc.parse_nmea(&data).unwrap();
    assert_eq!(s.sentence_type, "GPGGA");
    assert!(s.is_position_fix());
    assert_eq!(proc.frame_id, "gps");
    let fields = gga_fields(&s.sentence).unwrap();
    assert_eq!(fields[2], "4807.038");
    assert_eq!(fields[7], "08");
    assert_eq!(sentence_type("no dollar"), "");
    assert_eq!(sentence_type("$GPRMC"), "GPRMC");
    assert!(gga_fields("$GPGGA,1,2").is_none());
}

#[test]
fn time_reference_and_temperature() {
    let mut data = header(1, 2, "clock");
    put_u32(&mut data, 100);
    put_u32(&mut data, 200);
    put_string(&mut data, "gps");
    let mut proc = GpsProcessor::new();
    let t = proc.parse_time_reference(&data).unwrap();
    assert_eq!(t.time_ref, RosTime { sec: 100, nsec: 200 });
    assert_eq!(t.source, "gps");

    let mut temp = header(5, 6, "thermo");
    temp.extend_from_slice(&21.5f64.to_le_bytes());
    temp.extend_from_slice(&0.25f64.to_le_bytes());
    let r = proc.parse_temperature(&temp).unwrap();
    assert_eq!(f64::from_bits(r.temperature), 21.5);
    assert_eq!(f64::from_bits(r.variance), 0.25);
    assert_eq!(proc.frame_id, "thermo");

    match proc.parse_temperature(&[0u8; 31]) {
        Err(RosBagError::ParseError(m)) => assert_eq!(m, "Data too short for Temperature"),
        _ => panic!("expected a parse error"),
    }
    match proc.parse_time_reference(&[0u8; 23]) {
        Err(RosBagError::ParseError(m)) => assert_eq!(m, "Data too short for TimeReference"),
        _ => panic!("expected a parse error"),
    }
    match proc.parse_nmea(&[0u8; 19]) {
        Err(RosBagError::ParseError(m)) => assert_eq!(m, "Data too short for NMEA message"),
        _ => panic!("expected a parse error"),
    }
}
