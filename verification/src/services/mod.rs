pub mod common;
pub mod ddb;
pub mod ec2;
pub mod ecr;
pub mod kms;
pub mod lambda;
pub mod logs;
pub mod route53;
pub mod s3;
pub mod secrets;
pub mod sqs;
pub mod ssm;
pub mod sso;
pub mod sts;
